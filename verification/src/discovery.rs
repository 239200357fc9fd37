//! The discovery resources of RFC 7643 §5 to §7: `ServiceProviderConfig`, `ResourceType` and
//! `Schema`. A service provider writes them; no client changes them.

use crate::json;
use crate::json::{viewed, Json, Value};
use crate::number;
use crate::number::decimal_text;
use crate::text;
use crate::text::{copy_optional, equal_ignoring_case, joined, same_text, to_ascii_lower};
use vstd::prelude::*;

verus! {

pub const SERVICE_PROVIDER_CONFIG_SCHEMA_URI: &'static str =
    "urn:ietf:params:scim:schemas:core:2.0:ServiceProviderConfig";

pub const RESOURCE_TYPE_SCHEMA_URI: &'static str =
    "urn:ietf:params:scim:schemas:core:2.0:ResourceType";

pub const SCHEMA_SCHEMA_URI: &'static str = "urn:ietf:params:scim:schemas:core:2.0:Schema";

/// How deep `subAttributes` may nest in an attribute definition.
pub const MAX_DEPTH: usize = 32;

/// Whether a feature is supported.
#[derive(Clone, Copy, Debug, PartialEq, Eq, Structural)]
pub struct Supported {
    pub supported: bool,
}

/// What bulk requests may hold.
#[derive(Clone, Copy, Debug, PartialEq, Eq, Structural)]
pub struct BulkConfig {
    pub supported: bool,
    pub max_operations: u32,
    pub max_payload_size: u64,
}

/// What filters may ask for.
#[derive(Clone, Copy, Debug, PartialEq, Eq, Structural)]
pub struct FilterConfig {
    pub supported: bool,
    pub max_results: u32,
}

/// A way to authenticate.
#[derive(Clone, Debug, PartialEq)]
pub struct AuthenticationScheme {
    pub type_: String,
    pub name: String,
    pub description: String,
    pub spec_uri: Option<String>,
    pub documentation_uri: Option<String>,
    pub primary: Option<bool>,
}

/// RFC 7643 §5: what a service provider supports.
#[derive(Clone, Debug, PartialEq)]
pub struct ServiceProviderConfig {
    pub schemas: Vec<String>,
    pub documentation_uri: Option<String>,
    pub patch: Supported,
    pub bulk: BulkConfig,
    pub filter: FilterConfig,
    pub change_password: Supported,
    pub sort: Supported,
    pub etag: Supported,
    pub authentication_schemes: Vec<AuthenticationScheme>,
}

/// A schema that extends a resource type.
#[derive(Clone, Debug, PartialEq)]
pub struct SchemaExtension {
    pub schema: String,
    pub required: bool,
}

/// RFC 7643 §6: a kind of resource and where it is served.
#[derive(Clone, Debug, PartialEq)]
pub struct ResourceType {
    pub schemas: Vec<String>,
    pub id: Option<String>,
    pub name: String,
    pub description: Option<String>,
    pub endpoint: String,
    pub schema: String,
    pub schema_extensions: Vec<SchemaExtension>,
}

/// RFC 7643 §7: one attribute of a schema; a complex attribute holds others.
#[derive(Debug, PartialEq)]
pub struct AttributeDefinition {
    pub name: String,
    pub type_: String,
    pub multi_valued: bool,
    pub description: String,
    pub required: bool,
    pub canonical_values: Vec<String>,
    pub case_exact: bool,
    pub mutability: String,
    pub returned: String,
    pub uniqueness: String,
    pub sub_attributes: Vec<AttributeDefinition>,
    pub reference_types: Vec<String>,
}

/// RFC 7643 §7: the attributes of a resource type.
#[derive(Debug, PartialEq)]
pub struct SchemaResource {
    pub schemas: Vec<String>,
    pub id: String,
    pub name: Option<String>,
    pub description: Option<String>,
    pub attributes: Vec<AttributeDefinition>,
}

/// An attribute definition, as contracts speak of it.
#[verifier::ext_equal]
pub struct AttributeModel {
    pub name: Seq<char>,
    pub type_: Seq<char>,
    pub multi_valued: bool,
    pub description: Seq<char>,
    pub required: bool,
    pub canonical_values: Seq<Seq<char>>,
    pub case_exact: bool,
    pub mutability: Seq<char>,
    pub returned: Seq<char>,
    pub uniqueness: Seq<char>,
    pub sub_attributes: Seq<AttributeModel>,
    pub reference_types: Seq<Seq<char>>,
}

/// A schema, as contracts speak of it.
#[verifier::ext_equal]
pub struct SchemaModel {
    pub schemas: Seq<Seq<char>>,
    pub id: Seq<char>,
    pub name: Option<Seq<char>>,
    pub description: Option<Seq<char>>,
    pub attributes: Seq<AttributeModel>,
}

impl View for AttributeDefinition {
    type V = AttributeModel;

    open spec fn view(&self) -> AttributeModel
        decreases self,
    {
        AttributeModel {
            name: self.name@,
            type_: self.type_@,
            multi_valued: self.multi_valued,
            description: self.description@,
            required: self.required,
            canonical_values: text::texts(self.canonical_values@),
            case_exact: self.case_exact,
            mutability: self.mutability@,
            returned: self.returned@,
            uniqueness: self.uniqueness@,
            sub_attributes: attribute_views(self.sub_attributes@),
            reference_types: text::texts(self.reference_types@),
        }
    }
}

/// The definitions that a sequence of exec definitions stands for.
pub open spec fn attribute_views(attributes: Seq<AttributeDefinition>) -> Seq<AttributeModel>
    decreases attributes,
{
    Seq::new(
        attributes.len(),
        |i: int|
            if 0 <= i < attributes.len() {
                attributes[i].view()
            } else {
                arbitrary()
            },
    )
}

impl View for SchemaResource {
    type V = SchemaModel;

    open spec fn view(&self) -> SchemaModel {
        SchemaModel {
            schemas: text::texts(self.schemas@),
            id: self.id@,
            name: text::optional_text(self.name),
            description: text::optional_text(self.description),
            attributes: attribute_views(self.attributes@),
        }
    }
}

pub broadcast proof fn lemma_attribute_views_len(attributes: Seq<AttributeDefinition>)
    ensures
        #[trigger] attribute_views(attributes).len() == attributes.len(),
{
}

pub broadcast proof fn lemma_attribute_views_index(attributes: Seq<AttributeDefinition>, i: int)
    requires
        0 <= i < attributes.len(),
    ensures
        #[trigger] attribute_views(attributes)[i] == attributes[i]@,
{
}

pub broadcast group group_attribute_views {
    lemma_attribute_views_len,
    lemma_attribute_views_index,
}

/// An optional attribute that is single-valued, matched in any case, without uniqueness and
/// returned by default.
pub open spec fn simple_attribute(
    name: Seq<char>,
    type_: Seq<char>,
    description: Seq<char>,
    mutability: Seq<char>,
) -> AttributeModel {
    AttributeModel {
        name,
        type_,
        multi_valued: false,
        description,
        required: false,
        canonical_values: Seq::empty(),
        case_exact: false,
        mutability,
        returned: "default"@,
        uniqueness: "none"@,
        sub_attributes: Seq::empty(),
        reference_types: Seq::empty(),
    }
}

impl AttributeDefinition {
    /// An optional attribute that is single-valued, matched in any case, without uniqueness and
    /// returned by default; where an attribute differs, its fields are set by struct update.
    pub fn simple(name: &str, type_: &str, description: &str, mutability: &str) -> (r:
        AttributeDefinition)
        ensures
            r@ == simple_attribute(name@, type_@, description@, mutability@),
            r.canonical_values@.len() == 0,
            r.sub_attributes@.len() == 0,
            r.reference_types@.len() == 0,
    {
        let r = AttributeDefinition {
            name: name.to_owned(),
            type_: type_.to_owned(),
            multi_valued: false,
            description: description.to_owned(),
            required: false,
            canonical_values: Vec::new(),
            case_exact: false,
            mutability: mutability.to_owned(),
            returned: "default".to_owned(),
            uniqueness: "none".to_owned(),
            sub_attributes: Vec::new(),
            reference_types: Vec::new(),
        };
        proof {
            assert(attribute_views(r.sub_attributes@) =~= Seq::empty());
            assert(text::texts(r.canonical_values@) =~= Seq::empty());
            assert(text::texts(r.reference_types@) =~= Seq::empty());
        }
        r
    }
}

fn copy_texts(texts: &Vec<String>) -> (r: Vec<String>)
    ensures
        text::texts(r@) == text::texts(texts@),
{
    let mut r: Vec<String> = Vec::new();
    let mut i: usize = 0;
    while i < texts.len()
        invariant
            i <= texts.len(),
            r@ == texts@.take(i as int),
        decreases texts.len() - i,
    {
        r.push(texts[i].clone());
        i += 1;
    }
    assert(r@ =~= texts@);
    r
}

impl AttributeDefinition {
    fn duplicate(&self) -> (r: AttributeDefinition)
        ensures
            r@ == self@,
        decreases self,
    {
        let mut sub_attributes: Vec<AttributeDefinition> = Vec::new();
        let mut i: usize = 0;
        while i < self.sub_attributes.len()
            invariant
                i <= self.sub_attributes.len(),
                sub_attributes.len() == i,
                forall|j: int|
                    0 <= j < i ==> (#[trigger] sub_attributes[j])@ == self.sub_attributes[j]@,
            decreases self.sub_attributes.len() - i,
        {
            assert(decreases_to!(self => self.sub_attributes));
            assert(decreases_to!(self.sub_attributes => self.sub_attributes@));
            let copy = self.sub_attributes[i].duplicate();
            sub_attributes.push(copy);
            i += 1;
        }
        proof {
            assert forall|j: int| 0 <= j < sub_attributes.len() implies attribute_views(
                sub_attributes@,
            )[j] == attribute_views(self.sub_attributes@)[j] by {
                lemma_attribute_views_index(sub_attributes@, j);
                lemma_attribute_views_index(self.sub_attributes@, j);
                assert(sub_attributes[j]@ == self.sub_attributes[j]@);
            }
            assert(attribute_views(sub_attributes@) =~= attribute_views(self.sub_attributes@));
        }
        AttributeDefinition {
            name: self.name.clone(),
            type_: self.type_.clone(),
            multi_valued: self.multi_valued,
            description: self.description.clone(),
            required: self.required,
            canonical_values: copy_texts(&self.canonical_values),
            case_exact: self.case_exact,
            mutability: self.mutability.clone(),
            returned: self.returned.clone(),
            uniqueness: self.uniqueness.clone(),
            sub_attributes,
            reference_types: copy_texts(&self.reference_types),
        }
    }
}

impl Clone for AttributeDefinition {
    fn clone(&self) -> (r: Self)
        ensures
            r@ == self@,
    {
        self.duplicate()
    }
}

impl Clone for SchemaResource {
    fn clone(&self) -> (r: Self)
        ensures
            r@ == self@,
    {
        let mut attributes: Vec<AttributeDefinition> = Vec::new();
        let mut i: usize = 0;
        while i < self.attributes.len()
            invariant
                i <= self.attributes.len(),
                attributes.len() == i,
                forall|j: int| 0 <= j < i ==> (#[trigger] attributes[j])@ == self.attributes[j]@,
            decreases self.attributes.len() - i,
        {
            let copy = self.attributes[i].clone();
            attributes.push(copy);
            i += 1;
        }
        proof {
            assert forall|j: int| 0 <= j < attributes.len() implies attribute_views(
                attributes@,
            )[j] == attribute_views(self.attributes@)[j] by {
                lemma_attribute_views_index(attributes@, j);
                lemma_attribute_views_index(self.attributes@, j);
                assert(attributes[j]@ == self.attributes[j]@);
            }
            assert(attribute_views(attributes@) =~= attribute_views(self.attributes@));
        }
        SchemaResource {
            schemas: copy_texts(&self.schemas),
            id: self.id.clone(),
            name: copy_optional(&self.name),
            description: copy_optional(&self.description),
            attributes,
        }
    }
}

/// The first attribute called `name`, in any case of its letters.
pub open spec fn named(attributes: Seq<AttributeModel>, name: Seq<char>) -> Option<AttributeModel>
    decreases attributes.len(),
{
    if attributes.len() == 0 {
        None
    } else if text::same_ignoring_case(attributes[0].name, name) {
        Some(attributes[0])
    } else {
        named(attributes.skip(1), name)
    }
}

/// The attribute of a schema, or the sub-attribute of one of its attributes, with the given name.
pub open spec fn attribute_of(
    schema: SchemaModel,
    attr_name: Seq<char>,
    sub_attr: Option<Seq<char>>,
) -> Option<AttributeModel> {
    match named(schema.attributes, attr_name) {
        None => None,
        Some(top) => match sub_attr {
            Some(sub) => named(top.sub_attributes, sub),
            None => Some(top),
        },
    }
}

/// Whether RFC 7643 §3.1 makes a common attribute case-exact; `None` where it is no common
/// attribute.
pub open spec fn common_case_exact(attr_name: Seq<char>, sub_attr: Option<Seq<char>>) -> Option<
    bool,
> {
    if (text::same_ignoring_case(attr_name, "id"@) || text::same_ignoring_case(
        attr_name,
        "externalId"@,
    )) && sub_attr is None {
        Some(true)
    } else if text::same_ignoring_case(attr_name, "meta"@) && sub_attr is Some {
        let sub = text::ascii_lower(sub_attr->0);
        if sub == "resourcetype"@ || sub == "version"@ {
            Some(true)
        } else if sub == "created"@ || sub == "lastmodified"@ || sub == "location"@ {
            Some(false)
        } else {
            None
        }
    } else {
        None
    }
}

/// Whether an attribute path is case-exact. Where `parent_attr` is given, `attr_name` is its
/// sub-attribute. The common attributes that RFC 7643 §3.1 makes case-exact are so whatever a
/// schema says; for others the schema decides; what neither knows is not case-exact.
pub open spec fn case_exact_of(
    schema: Option<SchemaModel>,
    parent_attr: Option<Seq<char>>,
    attr_name: Seq<char>,
    sub_attr: Option<Seq<char>>,
) -> bool {
    let (top, sub) = match parent_attr {
        Some(parent) => (parent, Some(attr_name)),
        None => (attr_name, sub_attr),
    };
    let defined = match schema {
        Some(s) => attribute_of(s, top, sub),
        None => None,
    };
    if common_case_exact(top, sub) == Some(true) {
        true
    } else {
        match defined {
            Some(attribute) => attribute.case_exact,
            None => false,
        }
    }
}

/// `id`, `externalId`, `meta.resourceType` and `meta.version` are case-exact whatever a schema
/// declares of them, also inside the brackets of a value path.
pub proof fn law_common_attributes_stay_case_exact(
    schema: Option<SchemaModel>,
    attr_name: Seq<char>,
    sub_attr: Seq<char>,
)
    ensures
        text::same_ignoring_case(attr_name, "id"@) || text::same_ignoring_case(
            attr_name,
            "externalId"@,
        ) ==> case_exact_of(schema, None, attr_name, None),
        text::same_ignoring_case(attr_name, "meta"@) && (text::same_ignoring_case(
            sub_attr,
            "resourceType"@,
        ) || text::same_ignoring_case(sub_attr, "version"@)) ==> case_exact_of(
            schema,
            None,
            attr_name,
            Some(sub_attr),
        ) && case_exact_of(schema, Some(attr_name), sub_attr, None),
{
    reveal_strlit("resourceType");
    reveal_strlit("resourcetype");
    reveal_strlit("version");
    assert(text::ascii_lower("resourceType"@) =~= "resourcetype"@);
    assert(text::ascii_lower("version"@) =~= "version"@);
}

/// Without a schema, text inside the brackets of a value path is matched without regard to case.
/// Only under `meta`, which no PATCH request can reach, is it otherwise.
pub proof fn law_case_folds_without_schema(
    parent_attr: Seq<char>,
    attr_name: Seq<char>,
    sub_attr: Option<Seq<char>>,
)
    requires
        !text::same_ignoring_case(parent_attr, "meta"@),
    ensures
        !case_exact_of(None, Some(parent_attr), attr_name, sub_attr),
{
}

/// The view of an optional borrowed text.
pub open spec fn optional_str(s: Option<&str>) -> Option<Seq<char>> {
    match s {
        Some(t) => Some(t@),
        None => None,
    }
}

/// The first of `attributes` called `name`, in any case of its letters.
pub fn find_named<'a>(attributes: &'a Vec<AttributeDefinition>, name: &str) -> (r: Option<
    &'a AttributeDefinition,
>)
    ensures
        viewed(r) == named(attribute_views(attributes@), name@),
{
    let ghost views = attribute_views(attributes@);
    let mut i: usize = 0;
    assert(views.skip(0) =~= views);
    while i < attributes.len()
        invariant
            views == attribute_views(attributes@),
            views.len() == attributes.len(),
            i <= attributes.len(),
            named(views, name@) == named(views.skip(i as int), name@),
        decreases attributes.len() - i,
    {
        proof {
            lemma_attribute_views_index(attributes@, i as int);
            assert(views.skip(i as int).skip(1) =~= views.skip(i + 1));
        }
        if equal_ignoring_case(attributes[i].name.as_str(), name) {
            return Some(&attributes[i]);
        }
        i += 1;
    }
    None
}

/// Looks up an attribute, or a sub-attribute of it, in any case of its letters.
pub fn find_attribute<'a>(
    schema: &'a SchemaResource,
    attr_name: &str,
    sub_attr: Option<&str>,
) -> (r: Option<&'a AttributeDefinition>)
    ensures
        viewed(r) == attribute_of(schema@, attr_name@, optional_str(sub_attr)),
{
    match find_named(&schema.attributes, attr_name) {
        Some(top) => match sub_attr {
            Some(sub) => find_named(&top.sub_attributes, sub),
            None => Some(top),
        },
        None => None,
    }
}

fn common_attribute_case_exact(attr_name: &str, sub_attr: Option<&str>) -> (r: Option<bool>)
    ensures
        r == common_case_exact(attr_name@, optional_str(sub_attr)),
{
    match sub_attr {
        None => if equal_ignoring_case(attr_name, "id") || equal_ignoring_case(
            attr_name,
            "externalId",
        ) {
            Some(true)
        } else {
            None
        },
        Some(sub) => if equal_ignoring_case(attr_name, "meta") {
            let lower = to_ascii_lower(sub);
            if same_text(&lower, "resourcetype") || same_text(&lower, "version") {
                Some(true)
            } else if same_text(&lower, "created") || same_text(&lower, "lastmodified")
                || same_text(&lower, "location") {
                Some(false)
            } else {
                None
            }
        } else {
            None
        },
    }
}

/// Whether an attribute is case-exact, by the common attributes of RFC 7643 §3.1 and the schema.
/// With `parent_attr`, as inside the brackets of a value path, `attr_name` is a sub-attribute of
/// it. Whatever cannot be resolved folds case, the default of RFC 7643 §2.2.
pub fn is_case_exact(
    schema: Option<&SchemaResource>,
    parent_attr: Option<&str>,
    attr_name: &str,
    sub_attr: Option<&str>,
) -> (r: bool)
    ensures
        r == case_exact_of(viewed(schema), optional_str(parent_attr), attr_name@, optional_str(sub_attr)),
{
    let (top, sub) = match parent_attr {
        Some(parent) => (parent, Some(attr_name)),
        None => (attr_name, sub_attr),
    };
    let common = common_attribute_case_exact(top, sub);
    if let Some(true) = common {
        return true;
    }
    if let Some(schema) = schema {
        if let Some(attribute) = find_attribute(schema, top, sub) {
            return attribute.case_exact;
        }
    }
    false
}

// ---- Attribute definitions as documents ----

/// How deep `subAttributes` nest in the document of an attribute definition.
pub open spec fn nesting(doc: Json) -> nat
    decreases doc,
{
    match doc {
        Json::Object(members) => match json::lookup(members, "subAttributes"@) {
            None => 0,
            Some(subs) => {
                proof {
                    let at = json::lemma_lookup_position(members, "subAttributes"@);
                    assert(decreases_to!(members => members[at]));
                    assert(decreases_to!(members[at] => members[at].1));
                }
                match subs {
                    Json::Array(items) => 1 + deepest(items),
                    _ => 1,
                }
            },
        },
        _ => 0,
    }
}

/// The deepest nesting among documents.
pub open spec fn deepest(items: Seq<Json>) -> nat
    decreases items,
{
    if items.len() == 0 {
        0
    } else if nesting(items.last()) > deepest(items.drop_last()) {
        nesting(items.last())
    } else {
        deepest(items.drop_last())
    }
}

proof fn lemma_deepest_bound(items: Seq<Json>, i: int)
    requires
        0 <= i < items.len(),
    ensures
        nesting(items[i]) <= deepest(items),
    decreases items.len(),
{
    if i < items.len() - 1 {
        lemma_deepest_bound(items.drop_last(), i);
        assert(items.drop_last()[i] == items[i]);
    }
}

/// Whether `subAttributes` nest at most `levels` deep; looks no deeper than that.
pub fn nests_within(doc: &Value, levels: usize) -> (r: bool)
    ensures
        r == (nesting(doc@) <= levels),
    decreases levels,
{
    let subs = match doc.get("subAttributes") {
        Some(subs) => subs,
        None => {
            return true;
        },
    };
    if levels == 0 {
        return false;
    }
    match subs {
        Value::Array(items) => {
            let ghost shown = json::views(items@);
            let mut i: usize = 0;
            while i < items.len()
                invariant
                    i <= items.len(),
                    levels > 0,
                    shown == json::views(items@),
                    shown.len() == items.len(),
                    nesting(doc@) == 1 + deepest(shown),
                    deepest(shown.take(i as int)) <= levels - 1,
                decreases items.len() - i,
            {
                proof {
                    json::lemma_views_index(items@, i as int);
                    assert(shown.take(i + 1).drop_last() =~= shown.take(i as int));
                    assert(shown.take(i + 1).last() == shown[i as int]);
                }
                if !nests_within(&items[i], levels - 1) {
                    proof {
                        lemma_deepest_bound(shown, i as int);
                    }
                    return false;
                }
                i += 1;
            }
            assert(shown.take(i as int) =~= shown);
            true
        },
        _ => true,
    }
}

/// The refusal of definitions that nest too deep.
pub open spec fn too_deep_text() -> Seq<char> {
    "subAttributes nesting exceeds the maximum depth of "@ + number::digits(MAX_DEPTH as nat)
}

fn too_deep() -> (r: String)
    ensures
        r@ == too_deep_text(),
{
    joined(
        "subAttributes nesting exceeds the maximum depth of ",
        &decimal_text(MAX_DEPTH as u64),
    )
}

/// Refuses the document of an attribute definition whose `subAttributes` nest deeper than
/// [`MAX_DEPTH`].
pub fn check_sub_attributes(doc: &Value) -> (r: Result<(), String>)
    ensures
        r is Ok <==> nesting(doc@) <= MAX_DEPTH,
        r matches Err(e) ==> e@ == too_deep_text(),
{
    if nests_within(doc, MAX_DEPTH) {
        Ok(())
    } else {
        Err(too_deep())
    }
}

/// Whether no attribute definition in the document of a schema nests deeper than [`MAX_DEPTH`].
pub open spec fn schema_nests_within_limit(doc: Json) -> bool {
    match doc.get("attributes"@) {
        Some(Json::Array(items)) => forall|i: int|
            0 <= i < items.len() ==> nesting(#[trigger] items[i]) <= MAX_DEPTH,
        _ => true,
    }
}

/// Refuses the document of a schema with an attribute definition whose `subAttributes` nest deeper
/// than [`MAX_DEPTH`]. Each attribute is held to the limit on its own.
pub fn check_schema(doc: &Value) -> (r: Result<(), String>)
    ensures
        r is Ok <==> schema_nests_within_limit(doc@),
        r matches Err(e) ==> e@ == too_deep_text(),
{
    if let Some(Value::Array(items)) = doc.get("attributes") {
        let ghost shown = json::views(items@);
        let mut i: usize = 0;
        while i < items.len()
            invariant
                i <= items.len(),
                shown == json::views(items@),
                shown.len() == items.len(),
                doc@.get("attributes"@) == Some(Json::Array(shown)),
                forall|j: int| 0 <= j < i ==> nesting(#[trigger] shown[j]) <= MAX_DEPTH,
            decreases items.len() - i,
        {
            proof {
                json::lemma_views_index(items@, i as int);
            }
            if !nests_within(&items[i], MAX_DEPTH) {
                proof {
                    if schema_nests_within_limit(doc@) {
                        assert(doc@.get("attributes"@) matches Some(Json::Array(found)) && nesting(
                            found[i as int],
                        ) <= MAX_DEPTH);
                    }
                }
                return Err(too_deep());
            }
            i += 1;
        }
    }
    Ok(())
}

} // verus!
