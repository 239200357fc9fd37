//! The User resource of RFC 7643 §4.1 and the Enterprise User extension of §4.3.

use crate::common::{ExternalId, Meta, ResourceId};
use crate::discovery;
use crate::discovery::{AttributeDefinition, AttributeModel, SchemaModel, SchemaResource, SCHEMA_SCHEMA_URI};
use crate::text;
use crate::text::copy_optional;
use vstd::prelude::*;

verus! {

pub const USER_SCHEMA_URI: &'static str = "urn:ietf:params:scim:schemas:core:2.0:User";

pub const ENTERPRISE_USER_SCHEMA_URI: &'static str =
    "urn:ietf:params:scim:schemas:extension:enterprise:2.0:User";

/// The components of a name; RFC 7643 §4.1.1.
#[derive(Clone, Debug, Default, PartialEq)]
pub struct Name {
    pub formatted: Option<String>,
    pub family_name: Option<String>,
    pub given_name: Option<String>,
    pub middle_name: Option<String>,
    pub honorific_prefix: Option<String>,
    pub honorific_suffix: Option<String>,
}

/// An entry of `emails`, `phoneNumbers`, `ims` or `photos`; RFC 7643 §4.1.2.
#[derive(Clone, Debug, PartialEq)]
pub struct MultiValuedString {
    pub value: String,
    pub type_: Option<String>,
    pub primary: Option<bool>,
    pub display: Option<String>,
}

/// An entry of `addresses`; RFC 7643 §4.1.2.
#[derive(Clone, Debug, Default, PartialEq)]
pub struct Address {
    pub formatted: Option<String>,
    pub street_address: Option<String>,
    pub locality: Option<String>,
    pub region: Option<String>,
    pub postal_code: Option<String>,
    pub country: Option<String>,
    pub type_: Option<String>,
    pub primary: Option<bool>,
}

/// An entry of `groups`, the read-only view of a user's memberships; they are changed through the
/// group's `members`.
#[derive(Clone, Debug, PartialEq)]
pub struct GroupRef {
    pub value: ResourceId,
    pub ref_: Option<String>,
    pub display: Option<String>,
    /// `"direct"` or `"indirect"`.
    pub type_: Option<String>,
}

/// A password, or none. It shows as the same placeholder whatever it holds, and there is no way to
/// the text but [`Password::as_deref`].
pub struct Password(Option<String>);

/// What every password shows as.
pub const REDACTED: &'static str = "[REDACTED]";

impl View for Password {
    type V = Option<Seq<char>>;

    closed spec fn view(&self) -> Option<Seq<char>> {
        text::optional_text(self.0)
    }
}

impl Password {
    /// The text of the password.
    pub fn as_deref(&self) -> (r: Option<&str>)
        ensures
            discovery::optional_str(r) == self@,
    {
        match &self.0 {
            Some(s) => Some(s.as_str()),
            None => None,
        }
    }

    /// What the password shows as in logs: always the same, whether there is one or not.
    pub fn debug_text(&self) -> (r: String)
        ensures
            r@ == REDACTED@,
    {
        REDACTED.to_owned()
    }
}

impl From<Option<String>> for Password {
    fn from(value: Option<String>) -> (r: Password) {
        Password(value)
    }
}

impl vstd::std_specs::convert::FromSpecImpl<Option<String>> for Password {
    open spec fn obeys_from_spec() -> bool {
        true
    }

    closed spec fn from_spec(value: Option<String>) -> Password {
        Password(value)
    }
}

/// A password made from a text holds that text.
pub broadcast proof fn law_password_keeps_its_text(value: Option<String>)
    ensures
        #[trigger] <Password as vstd::std_specs::convert::FromSpec<Option<String>>>::from_spec(
            value,
        )@ == text::optional_text(value),
{
}

impl Clone for Password {
    fn clone(&self) -> (r: Self)
        ensures
            r@ == self@,
    {
        Password(copy_optional(&self.0))
    }
}

impl Default for Password {
    fn default() -> (r: Password)
        ensures
            r@ == None::<Seq<char>>,
    {
        Password(None)
    }
}

/// The bits in which two byte sequences of one length differ, folded into one byte.
spec fn difference(a: Seq<u8>, b: Seq<u8>) -> u8
    decreases a.len(),
{
    if a.len() == 0 {
        0
    } else {
        difference(a.drop_last(), b.drop_last()) | (a.last() ^ b.last())
    }
}

proof fn lemma_difference(a: Seq<u8>, b: Seq<u8>)
    requires
        a.len() == b.len(),
    ensures
        difference(a, b) == 0 <==> a == b,
    decreases a.len(),
{
    if a.len() == 0 {
        assert(a =~= b);
    } else {
        lemma_difference(a.drop_last(), b.drop_last());
        let front = difference(a.drop_last(), b.drop_last());
        let x = a.last();
        let y = b.last();
        assert((front | (x ^ y)) == 0 <==> front == 0 && x == y) by (bit_vector);
        if a.drop_last() == b.drop_last() && x == y {
            assert(a =~= a.drop_last().push(x));
            assert(b =~= b.drop_last().push(y));
        }
    }
}

/// Whether two texts are equal. Once their lengths agree, every byte is looked at whatever the
/// bytes before it were.
fn same_bytes(a: &str, b: &str) -> (r: bool)
    ensures
        r == (a@ == b@),
{
    let x = a.as_bytes();
    let y = b.as_bytes();
    proof {
        vstd::utf8::encode_utf8_decode_utf8(a@);
        vstd::utf8::encode_utf8_decode_utf8(b@);
    }
    if x.len() != y.len() {
        return false;
    }
    let mut folded: u8 = 0;
    let mut i: usize = 0;
    while i < x.len()
        invariant
            i <= x.len(),
            x.len() == y.len(),
            folded == difference(x@.take(i as int), y@.take(i as int)),
        decreases x.len() - i,
    {
        assert(x@.take(i + 1).drop_last() =~= x@.take(i as int));
        assert(y@.take(i + 1).drop_last() =~= y@.take(i as int));
        folded = folded | (x[i] ^ y[i]);
        i += 1;
    }
    proof {
        assert(x@.take(i as int) =~= x@);
        assert(y@.take(i as int) =~= y@);
        lemma_difference(x@, y@);
    }
    folded == 0
}

impl PartialEq for Password {
    fn eq(&self, other: &Password) -> (r: bool) {
        match (&self.0, &other.0) {
            (None, None) => true,
            (Some(a), Some(b)) => same_bytes(a.as_str(), b.as_str()),
            _ => false,
        }
    }
}

impl vstd::std_specs::cmp::PartialEqSpecImpl for Password {
    open spec fn obeys_eq_spec() -> bool {
        true
    }

    open spec fn eq_spec(&self, other: &Password) -> bool {
        self@ == other@
    }
}

/// The User resource. A client that creates one sends neither `id` nor `meta`.
#[derive(Clone, PartialEq)]
pub struct User {
    pub schemas: Vec<String>,
    pub id: Option<ResourceId>,
    pub external_id: Option<ExternalId>,
    pub meta: Option<Meta>,
    pub user_name: String,
    pub name: Option<Name>,
    pub display_name: Option<String>,
    pub nick_name: Option<String>,
    pub profile_url: Option<String>,
    pub title: Option<String>,
    pub user_type: Option<String>,
    pub preferred_language: Option<String>,
    pub locale: Option<String>,
    pub timezone: Option<String>,
    pub active: Option<bool>,
    /// Read from requests, never part of a response.
    pub password: Password,
    pub emails: Vec<MultiValuedString>,
    pub phone_numbers: Vec<MultiValuedString>,
    pub ims: Vec<MultiValuedString>,
    pub photos: Vec<MultiValuedString>,
    pub addresses: Vec<Address>,
    /// Read-only.
    pub groups: Vec<GroupRef>,
    pub entitlements: Vec<String>,
    pub roles: Vec<String>,
    pub x509_certificates: Vec<String>,
    pub enterprise: Option<EnterpriseUser>,
}

/// The Enterprise User extension.
#[derive(Clone, Debug, Default, PartialEq)]
pub struct EnterpriseUser {
    pub employee_number: Option<String>,
    pub cost_center: Option<String>,
    pub organization: Option<String>,
    pub division: Option<String>,
    pub department: Option<String>,
    pub manager: Option<Manager>,
}

/// A user's manager.
#[derive(Clone, Debug, PartialEq)]
pub struct Manager {
    pub value: ResourceId,
    pub ref_: Option<String>,
    pub display_name: Option<String>,
}

// ---- Schemas ----

/// An optional text that clients may read and write.
pub open spec fn text_attribute(name: Seq<char>, description: Seq<char>) -> AttributeModel {
    discovery::simple_attribute(name, "string"@, description, "readWrite"@)
}

/// A complex attribute.
pub open spec fn complex_attribute(
    name: Seq<char>,
    description: Seq<char>,
    mutability: Seq<char>,
    multi_valued: bool,
    sub_attributes: Seq<AttributeModel>,
) -> AttributeModel {
    AttributeModel {
        multi_valued,
        sub_attributes,
        ..discovery::simple_attribute(name, "complex"@, description, mutability)
    }
}

/// A multi-valued attribute without sub-attributes.
pub open spec fn list_attribute(name: Seq<char>, type_: Seq<char>, description: Seq<char>) ->
    AttributeModel {
    AttributeModel {
        multi_valued: true,
        ..discovery::simple_attribute(name, type_, description, "readWrite"@)
    }
}

/// A multi-valued attribute whose entries have a value, a type, a display name and a mark for the
/// primary one.
pub open spec fn valued_attribute(
    name: Seq<char>,
    description: Seq<char>,
    mutability: Seq<char>,
) -> AttributeModel {
    complex_attribute(
        name,
        description,
        mutability,
        true,
        seq![
            discovery::simple_attribute("value"@, "string"@, "The value."@, mutability),
            discovery::simple_attribute("type"@, "string"@, "The type of value."@, mutability),
            discovery::simple_attribute(
                "primary"@,
                "boolean"@,
                "Whether this is the primary value."@,
                mutability,
            ),
            discovery::simple_attribute(
                "display"@,
                "string"@,
                "A human-readable value."@,
                mutability,
            ),
        ],
    )
}

/// `userName`.
pub open spec fn user_name_attribute() -> AttributeModel {
    AttributeModel {
        required: true,
        uniqueness: "server"@,
        ..text_attribute(
            "userName"@,
            "Unique identifier for the User, typically used by the user to directly authenticate."@,
        )
    }
}

/// `name`.
pub open spec fn name_attribute() -> AttributeModel {
    complex_attribute(
        "name"@,
        "The components of the user's real name."@,
        "readWrite"@,
        false,
        seq![
            text_attribute("formatted"@, "The full name."@),
            text_attribute("familyName"@, "The family name."@),
            text_attribute("givenName"@, "The given name."@),
            text_attribute("middleName"@, "The middle name(s)."@),
            text_attribute("honorificPrefix"@, "The honorific prefix(es)."@),
            text_attribute("honorificSuffix"@, "The honorific suffix(es)."@),
        ],
    )
}

/// `profileUrl`.
pub open spec fn profile_url_attribute() -> AttributeModel {
    AttributeModel {
        case_exact: true,
        reference_types: seq!["external"@],
        ..discovery::simple_attribute(
            "profileUrl"@,
            "reference"@,
            "A URI that is a URL to the user's online profile."@,
            "readWrite"@,
        )
    }
}

/// `password`.
pub open spec fn password_attribute() -> AttributeModel {
    AttributeModel {
        returned: "never"@,
        ..discovery::simple_attribute(
            "password"@,
            "string"@,
            "The User's clear text password."@,
            "writeOnly"@,
        )
    }
}

/// `photos`.
pub open spec fn photos_attribute() -> AttributeModel {
    AttributeModel {
        reference_types: seq!["external"@],
        ..list_attribute("photos"@, "reference"@, "URLs of photos of the User."@)
    }
}

/// `addresses`.
pub open spec fn addresses_attribute() -> AttributeModel {
    complex_attribute(
        "addresses"@,
        "A physical mailing address for this User."@,
        "readWrite"@,
        true,
        seq![
            text_attribute("formatted"@, "The full mailing address."@),
            text_attribute("streetAddress"@, "The street address."@),
            text_attribute("locality"@, "The city or locality."@),
            text_attribute("region"@, "The state or region."@),
            text_attribute("postalCode"@, "The zip code or postal code."@),
            text_attribute("country"@, "The country name."@),
        ],
    )
}

/// The `type` of a group membership.
pub open spec fn membership_type_attribute() -> AttributeModel {
    AttributeModel {
        canonical_values: seq!["direct"@, "indirect"@],
        ..discovery::simple_attribute(
            "type"@,
            "string"@,
            "A label indicating the attribute's function; e.g., 'direct' or 'indirect'."@,
            "readOnly"@,
        )
    }
}

/// `groups`.
pub open spec fn groups_attribute() -> AttributeModel {
    complex_attribute(
        "groups"@,
        "A list of groups that the user belongs to."@,
        "readOnly"@,
        true,
        seq![
            discovery::simple_attribute(
                "value"@,
                "string"@,
                "The identifier of the User's group."@,
                "readOnly"@,
            ),
            discovery::simple_attribute(
                "$ref"@,
                "reference"@,
                "The URI of the corresponding Group resource."@,
                "readOnly"@,
            ),
            discovery::simple_attribute(
                "display"@,
                "string"@,
                "A human-readable name for the Group."@,
                "readOnly"@,
            ),
            membership_type_attribute(),
        ],
    )
}

/// The attributes of a User, in the order of RFC 7643 §4.1.
pub open spec fn user_attributes() -> Seq<AttributeModel> {
    seq![
        user_name_attribute(),
        name_attribute(),
        text_attribute("displayName"@, "The name of the User, suitable for display."@),
        text_attribute("nickName"@, "The casual way to address the user."@),
        profile_url_attribute(),
        text_attribute("title"@, "The user's title."@),
        text_attribute(
            "userType"@,
            "Used to identify the relationship between the organization and the user."@,
        ),
        text_attribute(
            "preferredLanguage"@,
            "Indicates the User's preferred written or spoken language."@,
        ),
        text_attribute("locale"@, "Used to indicate the User's default location."@),
        text_attribute("timezone"@, "The User's time zone."@),
        discovery::simple_attribute(
            "active"@,
            "boolean"@,
            "A Boolean value indicating the User's administrative status."@,
            "readWrite"@,
        ),
        password_attribute(),
        valued_attribute("emails"@, "Email addresses for the user."@, "readWrite"@),
        valued_attribute("phoneNumbers"@, "Phone numbers for the User."@, "readWrite"@),
        valued_attribute("ims"@, "Instant messaging addresses for the User."@, "readWrite"@),
        photos_attribute(),
        addresses_attribute(),
        groups_attribute(),
        list_attribute("entitlements"@, "string"@, "A list of entitlements for the User."@),
        list_attribute("roles"@, "string"@, "A list of roles for the User."@),
        list_attribute(
            "x509Certificates"@,
            "binary"@,
            "A list of certificates issued to the User."@,
        ),
    ]
}

/// The schema of a User.
pub open spec fn user_schema_model() -> SchemaModel {
    SchemaModel {
        schemas: seq![SCHEMA_SCHEMA_URI@],
        id: USER_SCHEMA_URI@,
        name: Some("User"@),
        description: Some("User Account"@),
        attributes: user_attributes(),
    }
}

/// `manager`.
pub open spec fn manager_attribute() -> AttributeModel {
    complex_attribute(
        "manager"@,
        "The user's manager."@,
        "readWrite"@,
        false,
        seq![
            text_attribute(
                "value"@,
                "The id of the SCIM resource representing the user's manager."@,
            ),
            discovery::simple_attribute(
                "$ref"@,
                "reference"@,
                "The URI of the SCIM resource representing the user's manager."@,
                "readWrite"@,
            ),
            discovery::simple_attribute(
                "displayName"@,
                "string"@,
                "The displayName of the user's manager."@,
                "readOnly"@,
            ),
        ],
    )
}

/// The schema of the Enterprise User extension.
pub open spec fn enterprise_user_schema_model() -> SchemaModel {
    SchemaModel {
        schemas: seq![SCHEMA_SCHEMA_URI@],
        id: ENTERPRISE_USER_SCHEMA_URI@,
        name: Some("EnterpriseUser"@),
        description: Some("Enterprise User"@),
        attributes: seq![
            text_attribute(
                "employeeNumber"@,
                "Numeric or alphanumeric identifier assigned to a person."@,
            ),
            text_attribute("costCenter"@, "Identifies the name of a cost center."@),
            text_attribute("organization"@, "Identifies the name of an organization."@),
            text_attribute("division"@, "Identifies the name of a division."@),
            text_attribute("department"@, "Identifies the name of a department."@),
            manager_attribute(),
        ],
    }
}

fn text_attr(name: &str, description: &str) -> (r: AttributeDefinition)
    ensures
        r@ == text_attribute(name@, description@),
{
    AttributeDefinition::simple(name, "string", description, "readWrite")
}

/// A complex attribute with the given sub-attributes.
pub fn complex_attr(
    name: &str,
    description: &str,
    mutability: &str,
    multi_valued: bool,
    sub_attributes: Vec<AttributeDefinition>,
) -> (r: AttributeDefinition)
    ensures
        r@ == complex_attribute(
            name@,
            description@,
            mutability@,
            multi_valued,
            discovery::attribute_views(sub_attributes@),
        ),
{
    AttributeDefinition {
        multi_valued,
        sub_attributes,
        ..AttributeDefinition::simple(name, "complex", description, mutability)
    }
}

fn list_attr(name: &str, type_: &str, description: &str) -> (r: AttributeDefinition)
    ensures
        r@ == list_attribute(name@, type_@, description@),
{
    AttributeDefinition {
        multi_valued: true,
        ..AttributeDefinition::simple(name, type_, description, "readWrite")
    }
}

fn multi_valued_string_attr(name: &str, description: &str, mutability: &str) -> (r:
    AttributeDefinition)
    ensures
        r@ == valued_attribute(name@, description@, mutability@),
{
    broadcast use discovery::group_attribute_views;

    let subs = vec![
        AttributeDefinition::simple("value", "string", "The value.", mutability),
        AttributeDefinition::simple("type", "string", "The type of value.", mutability),
        AttributeDefinition::simple(
            "primary",
            "boolean",
            "Whether this is the primary value.",
            mutability,
        ),
        AttributeDefinition::simple("display", "string", "A human-readable value.", mutability),
    ];
    assert(discovery::attribute_views(subs@) =~= valued_attribute(
        name@,
        description@,
        mutability@,
    ).sub_attributes);
    complex_attr(name, description, mutability, true, subs)
}

fn user_name_attr() -> (r: AttributeDefinition)
    ensures
        r@ == user_name_attribute(),
{
    AttributeDefinition {
        required: true,
        uniqueness: "server".to_owned(),
        ..text_attr(
            "userName",
            "Unique identifier for the User, typically used by the user to directly authenticate.",
        )
    }
}

fn name_attr() -> (r: AttributeDefinition)
    ensures
        r@ == name_attribute(),
{
    broadcast use discovery::group_attribute_views;

    let subs = vec![
        text_attr("formatted", "The full name."),
        text_attr("familyName", "The family name."),
        text_attr("givenName", "The given name."),
        text_attr("middleName", "The middle name(s)."),
        text_attr("honorificPrefix", "The honorific prefix(es)."),
        text_attr("honorificSuffix", "The honorific suffix(es)."),
    ];
    assert(discovery::attribute_views(subs@) =~= name_attribute().sub_attributes);
    complex_attr(
        "name",
        "The components of the user's real name.",
        "readWrite",
        false,
        subs,
    )
}

fn external_reference() -> (r: Vec<String>)
    ensures
        text::texts(r@) == seq!["external"@],
{
    let r = vec!["external".to_owned()];
    assert(text::texts(r@) =~= seq!["external"@]);
    r
}

fn profile_url_attr() -> (r: AttributeDefinition)
    ensures
        r@ == profile_url_attribute(),
{
    AttributeDefinition {
        case_exact: true,
        reference_types: external_reference(),
        ..AttributeDefinition::simple(
            "profileUrl",
            "reference",
            "A URI that is a URL to the user's online profile.",
            "readWrite",
        )
    }
}

fn password_attr() -> (r: AttributeDefinition)
    ensures
        r@ == password_attribute(),
{
    AttributeDefinition {
        returned: "never".to_owned(),
        ..AttributeDefinition::simple(
            "password",
            "string",
            "The User's clear text password.",
            "writeOnly",
        )
    }
}

fn photos_attr() -> (r: AttributeDefinition)
    ensures
        r@ == photos_attribute(),
{
    AttributeDefinition {
        reference_types: external_reference(),
        ..list_attr("photos", "reference", "URLs of photos of the User.")
    }
}

fn addresses_attr() -> (r: AttributeDefinition)
    ensures
        r@ == addresses_attribute(),
{
    broadcast use discovery::group_attribute_views;

    let subs = vec![
        text_attr("formatted", "The full mailing address."),
        text_attr("streetAddress", "The street address."),
        text_attr("locality", "The city or locality."),
        text_attr("region", "The state or region."),
        text_attr("postalCode", "The zip code or postal code."),
        text_attr("country", "The country name."),
    ];
    assert(discovery::attribute_views(subs@) =~= addresses_attribute().sub_attributes);
    complex_attr(
        "addresses",
        "A physical mailing address for this User.",
        "readWrite",
        true,
        subs,
    )
}

fn membership_type_attr() -> (r: AttributeDefinition)
    ensures
        r@ == membership_type_attribute(),
{
    let canonical_values = vec!["direct".to_owned(), "indirect".to_owned()];
    assert(text::texts(canonical_values@) =~= seq!["direct"@, "indirect"@]);
    AttributeDefinition {
        canonical_values,
        ..AttributeDefinition::simple(
            "type",
            "string",
            "A label indicating the attribute's function; e.g., 'direct' or 'indirect'.",
            "readOnly",
        )
    }
}

fn groups_attr() -> (r: AttributeDefinition)
    ensures
        r@ == groups_attribute(),
{
    broadcast use discovery::group_attribute_views;

    let subs = vec![
        AttributeDefinition::simple(
            "value",
            "string",
            "The identifier of the User's group.",
            "readOnly",
        ),
        AttributeDefinition::simple(
            "$ref",
            "reference",
            "The URI of the corresponding Group resource.",
            "readOnly",
        ),
        AttributeDefinition::simple(
            "display",
            "string",
            "A human-readable name for the Group.",
            "readOnly",
        ),
        membership_type_attr(),
    ];
    assert(discovery::attribute_views(subs@) =~= groups_attribute().sub_attributes);
    complex_attr(
        "groups",
        "A list of groups that the user belongs to.",
        "readOnly",
        true,
        subs,
    )
}

/// The attribute table of RFC 7643 §4.1: what `/Schemas` serves, and what PATCH requests on a User
/// are held to.
pub fn user_schema() -> (r: SchemaResource)
    ensures
        r@ == user_schema_model(),
{
    broadcast use discovery::group_attribute_views;

    let attributes = vec![
        user_name_attr(),
        name_attr(),
        text_attr("displayName", "The name of the User, suitable for display."),
        text_attr("nickName", "The casual way to address the user."),
        profile_url_attr(),
        text_attr("title", "The user's title."),
        text_attr(
            "userType",
            "Used to identify the relationship between the organization and the user.",
        ),
        text_attr(
            "preferredLanguage",
            "Indicates the User's preferred written or spoken language.",
        ),
        text_attr("locale", "Used to indicate the User's default location."),
        text_attr("timezone", "The User's time zone."),
        AttributeDefinition::simple(
            "active",
            "boolean",
            "A Boolean value indicating the User's administrative status.",
            "readWrite",
        ),
        password_attr(),
        multi_valued_string_attr("emails", "Email addresses for the user.", "readWrite"),
        multi_valued_string_attr("phoneNumbers", "Phone numbers for the User.", "readWrite"),
        multi_valued_string_attr("ims", "Instant messaging addresses for the User.", "readWrite"),
        photos_attr(),
        addresses_attr(),
        groups_attr(),
        list_attr("entitlements", "string", "A list of entitlements for the User."),
        list_attr("roles", "string", "A list of roles for the User."),
        list_attr("x509Certificates", "binary", "A list of certificates issued to the User."),
    ];
    assert(discovery::attribute_views(attributes@) =~= user_attributes());
    let schemas = vec![SCHEMA_SCHEMA_URI.to_owned()];
    assert(text::texts(schemas@) =~= seq![SCHEMA_SCHEMA_URI@]);
    SchemaResource {
        schemas,
        id: USER_SCHEMA_URI.to_owned(),
        name: Some("User".to_owned()),
        description: Some("User Account".to_owned()),
        attributes,
    }
}

fn manager_attr() -> (r: AttributeDefinition)
    ensures
        r@ == manager_attribute(),
{
    broadcast use discovery::group_attribute_views;

    let subs = vec![
        text_attr("value", "The id of the SCIM resource representing the user's manager."),
        AttributeDefinition::simple(
            "$ref",
            "reference",
            "The URI of the SCIM resource representing the user's manager.",
            "readWrite",
        ),
        AttributeDefinition::simple(
            "displayName",
            "string",
            "The displayName of the user's manager.",
            "readOnly",
        ),
    ];
    assert(discovery::attribute_views(subs@) =~= manager_attribute().sub_attributes);
    complex_attr("manager", "The user's manager.", "readWrite", false, subs)
}

/// The attribute table of RFC 7643 §4.3.
pub fn enterprise_user_schema() -> (r: SchemaResource)
    ensures
        r@ == enterprise_user_schema_model(),
{
    broadcast use discovery::group_attribute_views;

    let attributes = vec![
        text_attr(
            "employeeNumber",
            "Numeric or alphanumeric identifier assigned to a person.",
        ),
        text_attr("costCenter", "Identifies the name of a cost center."),
        text_attr("organization", "Identifies the name of an organization."),
        text_attr("division", "Identifies the name of a division."),
        text_attr("department", "Identifies the name of a department."),
        manager_attr(),
    ];
    assert(discovery::attribute_views(attributes@)
        =~= enterprise_user_schema_model().attributes);
    let schemas = vec![SCHEMA_SCHEMA_URI.to_owned()];
    assert(text::texts(schemas@) =~= seq![SCHEMA_SCHEMA_URI@]);
    SchemaResource {
        schemas,
        id: ENTERPRISE_USER_SCHEMA_URI.to_owned(),
        name: Some("EnterpriseUser".to_owned()),
        description: Some("Enterprise User".to_owned()),
        attributes,
    }
}

} // verus!
