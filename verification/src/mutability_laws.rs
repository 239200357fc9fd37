//! What the mutability that a schema declares makes of PATCH requests.

use crate::common;
use crate::common::Mutability;
use crate::discovery;
use crate::discovery::{AttributeModel, SchemaModel};
use crate::filter;
use crate::filter::FilterModel;
use crate::json;
use crate::json::{Json, Number};
use crate::matching;
use crate::mutability;
use crate::number;
use crate::patch;
use crate::patch::{OperationModel, PatchErrorModel, PatchOp};
use crate::patch_laws;
use crate::schema_laws;
use crate::text;
use crate::write_laws;
use vstd::prelude::*;

verus! {

/// Whether the definition at `i` is the first for `name`, in any case of its letters.
pub open spec fn stands_first(attributes: Seq<AttributeModel>, name: Seq<char>, i: int) -> bool {
    &&& 0 <= i < attributes.len()
    &&& text::ascii_lower(attributes[i].name) == text::ascii_lower(name)
    &&& forall|j: int|
        0 <= j < i ==> text::ascii_lower((#[trigger] attributes[j]).name) != text::ascii_lower(name)
}

/// Whether no definition is for `name`.
pub open spec fn is_unknown(attributes: Seq<AttributeModel>, name: Seq<char>) -> bool {
    forall|j: int|
        0 <= j < attributes.len() ==> text::ascii_lower((#[trigger] attributes[j]).name)
            != text::ascii_lower(name)
}

/// The first definition for a name is the one that counts, and there is none where none is for it.
pub proof fn law_the_first_definition_counts(
    attributes: Seq<AttributeModel>,
    name: Seq<char>,
    i: int,
)
    ensures
        stands_first(attributes, name, i) ==> discovery::named(attributes, name) == Some(
            attributes[i],
        ),
        is_unknown(attributes, name) ==> discovery::named(attributes, name) is None,
    decreases attributes.len(),
{
    if attributes.len() > 0 {
        let rest = attributes.skip(1);
        law_the_first_definition_counts(rest, name, i - 1);
        if stands_first(attributes, name, i) && i > 0 {
            assert(text::ascii_lower(attributes[0].name) != text::ascii_lower(name));
            assert forall|j: int| 0 <= j < i - 1 implies text::ascii_lower(
                (#[trigger] rest[j]).name,
            ) != text::ascii_lower(name) by {
                assert(rest[j] == attributes[j + 1]);
            }
            assert(stands_first(rest, name, i - 1));
        }
        if is_unknown(attributes, name) {
            assert(text::ascii_lower(attributes[0].name) != text::ascii_lower(name));
            assert forall|j: int| 0 <= j < rest.len() implies text::ascii_lower(
                (#[trigger] rest[j]).name,
            ) != text::ascii_lower(name) by {
                assert(rest[j] == attributes[j + 1]);
            }
        }
    }
}

/// Whether a value is there and not null.
pub open spec fn has_value(v: Option<Json>) -> bool {
    v is Some && !(v->0 is Null)
}

/// Whether a mutability is one of the four tokens of RFC 7643 §2.2.
pub open spec fn is_token(m: Seq<char>) -> bool {
    m == "readOnly"@ || m == "readWrite"@ || m == "immutable"@ || m == "writeOnly"@
}

/// Whether a mutability never stands in the way of a write.
pub open spec fn is_loose(m: Seq<char>) -> bool {
    m == "readWrite"@ || m == "writeOnly"@
}

/// The outcome of a request of operations before, the one in question and the rest.
pub open spec fn with_operation(
    resource: Json,
    before: Seq<OperationModel>,
    operation: OperationModel,
    rest: Seq<OperationModel>,
    schema: SchemaModel,
) -> Result<Json, PatchErrorModel> {
    patch::patched(resource, before + (seq![operation] + rest), Some(schema))
}

proof fn lemma_tokens()
    ensures
        forall|m: Seq<char>| is_token(m) <==> #[trigger] common::mutability_of(m) is Some,
        common::mutability_of("readOnly"@) == Some(Mutability::ReadOnly),
        common::mutability_of("readWrite"@) == Some(Mutability::ReadWrite),
        common::mutability_of("immutable"@) == Some(Mutability::Immutable),
        common::mutability_of("writeOnly"@) == Some(Mutability::WriteOnly),
{
    schema_laws::lemma_mutabilities();
}

/// A read-only attribute is refused to every operation, an immutable one to all but the first `add`,
/// wherever in a request; what counts is the value before the request. A mutability that is none of
/// the four is an error.
pub proof fn law_whole_attributes_obey_their_mutability(
    resource: Json,
    before: Seq<OperationModel>,
    op: PatchOp,
    s: Seq<char>,
    attr: Seq<char>,
    value: Option<Json>,
    rest: Seq<OperationModel>,
    schema: SchemaModel,
    i: int,
)
    requires
        write_laws::leads_to(s, write_laws::whole(attr)),
        write_laws::is_open(attr),
        stands_first(schema.attributes, attr, i),
        patch::patched(resource, before, Some(schema)) is Ok,
    ensures
        ({
            let m = schema.attributes[i].mutability;
            let outcome = with_operation(
                resource,
                before,
                write_laws::operation(op, s, value),
                rest,
                schema,
            );
            let refused = Err::<Json, PatchErrorModel>(PatchErrorModel::ImmutableOrReadOnly(attr));
            &&& m == "readOnly"@ ==> outcome == refused
            &&& m == "immutable"@ && (op != PatchOp::Add || has_value(resource.get(attr)))
                ==> outcome == refused
            &&& !is_token(m) ==> outcome == Err::<Json, PatchErrorModel>(
                PatchErrorModel::InvalidSchemaMutability { attr_name: attr, mutability: m },
            )
        }),
{
    lemma_tokens();
    write_laws::lemma_open(attr);
    law_the_first_definition_counts(schema.attributes, attr, i);
    patch_laws::law_request_fails_with_its_first_refusal(
        resource,
        before,
        write_laws::operation(op, s, value),
        rest,
        Some(schema),
    );
}

/// The stricter of a part's mutability and its attribute's is enforced, wherever in a request: a
/// part that is read-only itself or by its attribute is refused to every operation, whatever the
/// other of the two declares, and an immutable one to all but an `add`.
pub proof fn law_parts_obey_the_stricter_mutability(
    resource: Json,
    before: Seq<OperationModel>,
    op: PatchOp,
    s: Seq<char>,
    attr: Seq<char>,
    filter: Option<FilterModel>,
    sub: Seq<char>,
    value: Option<Json>,
    rest: Seq<OperationModel>,
    schema: SchemaModel,
    i: int,
    j: int,
)
    requires
        write_laws::leads_to(
            s,
            match filter {
                Some(f) => write_laws::chosen(attr, f, Some(sub)),
                None => write_laws::part(attr, sub),
            },
        ),
        write_laws::is_open(attr),
        stands_first(schema.attributes, attr, i),
        stands_first(schema.attributes[i].sub_attributes, sub, j),
        patch::patched(resource, before, Some(schema)) is Ok,
    ensures
        ({
            let parent = schema.attributes[i].mutability;
            let own = schema.attributes[i].sub_attributes[j].mutability;
            let outcome = with_operation(
                resource,
                before,
                write_laws::operation(op, s, value),
                rest,
                schema,
            );
            let refused = Err::<Json, PatchErrorModel>(PatchErrorModel::ImmutableOrReadOnly(attr));
            &&& is_token(parent) && own == "readOnly"@ ==> outcome == refused
            &&& is_token(own) && parent == "readOnly"@ ==> outcome == refused
            &&& is_token(parent) && own == "immutable"@ && op != PatchOp::Add ==> outcome == refused
            &&& is_token(own) && parent == "immutable"@ && op != PatchOp::Add ==> outcome == refused
            &&& !is_token(own) ==> outcome == Err::<Json, PatchErrorModel>(
                PatchErrorModel::InvalidSchemaMutability { attr_name: attr, mutability: own },
            )
            &&& is_token(own) && !is_token(parent) ==> outcome == Err::<Json, PatchErrorModel>(
                PatchErrorModel::InvalidSchemaMutability { attr_name: attr, mutability: parent },
            )
        }),
{
    lemma_tokens();
    write_laws::lemma_open(attr);
    law_the_first_definition_counts(schema.attributes, attr, i);
    law_the_first_definition_counts(schema.attributes[i].sub_attributes, sub, j);
    patch_laws::law_request_fails_with_its_first_refusal(
        resource,
        before,
        write_laws::operation(op, s, value),
        rest,
        Some(schema),
    );
}

/// An `add` to an immutable part is refused where there was a value before the request: one of the
/// part itself where the part is immutable, and any of the attribute where only that is.
pub proof fn law_adding_over_an_immutable_value_is_refused(
    resource: Json,
    before: Seq<OperationModel>,
    s: Seq<char>,
    attr: Seq<char>,
    sub: Seq<char>,
    value: Option<Json>,
    rest: Seq<OperationModel>,
    schema: SchemaModel,
    i: int,
    j: int,
)
    requires
        write_laws::leads_to(s, write_laws::part(attr, sub)),
        write_laws::is_open(attr),
        stands_first(schema.attributes, attr, i),
        stands_first(schema.attributes[i].sub_attributes, sub, j),
        patch::patched(resource, before, Some(schema)) is Ok,
    ensures
        ({
            let parent = schema.attributes[i].mutability;
            let own = schema.attributes[i].sub_attributes[j].mutability;
            let old = resource.get(attr);
            let outcome = with_operation(
                resource,
                before,
                write_laws::operation(PatchOp::Add, s, value),
                rest,
                schema,
            );
            let refused = Err::<Json, PatchErrorModel>(PatchErrorModel::ImmutableOrReadOnly(attr));
            &&& is_token(parent) && own == "immutable"@ && old is Some && has_value(old->0.get(sub))
                ==> outcome == refused
            &&& is_loose(own) && parent == "immutable"@ && has_value(old) ==> outcome == refused
        }),
{
    lemma_tokens();
    write_laws::lemma_open(attr);
    law_the_first_definition_counts(schema.attributes, attr, i);
    law_the_first_definition_counts(schema.attributes[i].sub_attributes, sub, j);
    patch_laws::law_request_fails_with_its_first_refusal(
        resource,
        before,
        write_laws::operation(PatchOp::Add, s, value),
        rest,
        Some(schema),
    );
}

/// An `add` to an immutable part of the entries that a filter chooses is refused where an entry
/// that it chooses had a value for the part before the request, or, where only the attribute is
/// immutable, where it chooses any.
pub proof fn law_adding_to_immutable_entries_is_refused(
    resource: Json,
    before: Seq<OperationModel>,
    s: Seq<char>,
    attr: Seq<char>,
    f: FilterModel,
    sub: Seq<char>,
    value: Option<Json>,
    rest: Seq<OperationModel>,
    schema: SchemaModel,
    i: int,
    j: int,
    entries: Seq<Json>,
    at: int,
)
    requires
        write_laws::leads_to(s, write_laws::chosen(attr, f, Some(sub))),
        write_laws::is_open(attr),
        stands_first(schema.attributes, attr, i),
        stands_first(schema.attributes[i].sub_attributes, sub, j),
        patch::patched(resource, before, Some(schema)) is Ok,
        resource.get(attr) == Some(Json::Array(entries)),
        0 <= at < entries.len(),
        matching::entry_matches(f, entries[at], attr, Some(schema)),
    ensures
        ({
            let parent = schema.attributes[i].mutability;
            let own = schema.attributes[i].sub_attributes[j].mutability;
            let outcome = with_operation(
                resource,
                before,
                write_laws::operation(PatchOp::Add, s, value),
                rest,
                schema,
            );
            let refused = Err::<Json, PatchErrorModel>(PatchErrorModel::ImmutableOrReadOnly(attr));
            &&& is_token(parent) && own == "immutable"@ && has_value(entries[at].get(sub))
                ==> outcome == refused
            &&& is_loose(own) && parent == "immutable"@ ==> outcome == refused
        }),
{
    lemma_tokens();
    write_laws::lemma_open(attr);
    law_the_first_definition_counts(schema.attributes, attr, i);
    law_the_first_definition_counts(schema.attributes[i].sub_attributes, sub, j);
    patch_laws::law_request_fails_with_its_first_refusal(
        resource,
        before,
        write_laws::operation(PatchOp::Add, s, value),
        rest,
        Some(schema),
    );
    let parent = schema.attributes[i].mutability;
    let own = schema.attributes[i].sub_attributes[j].mutability;
    assert(entries[at] == entries[at]);
    if is_token(parent) && own == "immutable"@ && has_value(entries[at].get(sub)) {
        assert(mutability::has_value(resource, attr, Some(sub), Some(f), schema));
    }
    assert(mutability::has_value(resource, attr, None, Some(f), schema));
}

proof fn lemma_one_operation(resource: Json, op: OperationModel, schema: SchemaModel)
    ensures
        patch::patched(resource, seq![op], Some(schema)) == patch::after_operation(
            resource,
            resource,
            op,
            Some(schema),
        ),
{
    reveal_with_fuel(patch::after_operations, 2);
    assert(seq![op].skip(1) =~= Seq::empty());
}

/// Whether a schema lets a part be written: both mutabilities are loose, or the operation is an
/// `add` to what is immutable and has no value.
pub open spec fn lets_part_be_written(
    parent: Seq<char>,
    own: Seq<char>,
    op: PatchOp,
    old: Option<Json>,
    sub: Seq<char>,
) -> bool {
    ||| is_loose(parent) && is_loose(own)
    ||| {
        &&& op == PatchOp::Add
        &&& is_loose(parent) || parent == "immutable"@
        &&& own == "immutable"@
        &&& old is None || !has_value(old->0.get(sub))
    }
    ||| op == PatchOp::Add && parent == "immutable"@ && is_loose(own) && !has_value(old)
}

/// What the mutabilities allow of a part is done: the part is written in an attribute that is an
/// object or not there, the others stay, and other attributes too.
pub proof fn law_allowed_parts_are_written(
    root: Seq<(Seq<char>, Json)>,
    op: PatchOp,
    s: Seq<char>,
    attr: Seq<char>,
    sub: Seq<char>,
    value: Option<Json>,
    schema: SchemaModel,
    i: int,
    j: int,
)
    requires
        write_laws::leads_to(s, write_laws::part(attr, sub)),
        write_laws::is_open(attr),
        op != PatchOp::Remove,
        stands_first(schema.attributes, attr, i),
        stands_first(schema.attributes[i].sub_attributes, sub, j),
        schema.attributes[i].sub_attributes[j].type_ == "string"@,
        !(write_laws::content(value) is Array),
        json::lookup(root, attr) is None || json::lookup(root, attr)->0 is Object,
        lets_part_be_written(
            schema.attributes[i].mutability,
            schema.attributes[i].sub_attributes[j].mutability,
            op,
            json::lookup(root, attr),
            sub,
        ),
    ensures
        ({
            let before = json::lookup(root, attr);
            &&& patch::patched(
                Json::Object(root),
                seq![write_laws::operation(op, s, value)],
                Some(schema),
            ) matches Ok(after)
            &&& write_laws::same_but_for(after, Json::Object(root), attr)
            &&& after.get(attr) matches Some(written)
            &&& written is Object
            &&& written.get(sub) == Some(write_laws::content(value))
            &&& forall|name: Seq<char>|
                name != sub ==> #[trigger] written.get(name) == (match before {
                    Some(old) => old.get(name),
                    None => None,
                })
        }),
{
    broadcast use json::lemma_lookup_put;

    lemma_tokens();
    lemma_types();
    write_laws::lemma_open(attr);
    law_the_first_definition_counts(schema.attributes, attr, i);
    law_the_first_definition_counts(schema.attributes[i].sub_attributes, sub, j);
    lemma_one_operation(Json::Object(root), write_laws::operation(op, s, value), schema);
}

proof fn lemma_types()
    ensures
        "string"@ != "boolean"@,
        "string"@ != "integer"@,
        "string"@ != "decimal"@,
        "boolean"@ != "integer"@,
        "boolean"@ != "decimal"@,
        "integer"@ != "decimal"@,
        "true"@ != "false"@,
{
    reveal_strlit("string");
    reveal_strlit("boolean");
    reveal_strlit("integer");
    reveal_strlit("decimal");
    reveal_strlit("true");
    reveal_strlit("false");
    assert("string"@[0] == 's' && "boolean"@[0] == 'b' && "integer"@[0] == 'i' && "decimal"@[0]
        == 'd');
    assert("true"@[0] == 't' && "false"@[0] == 'f');
}

/// The JSON number of an integer.
pub open spec fn integer(n: i64) -> Json {
    if n < 0 {
        Json::Number(Number::NegInt(n))
    } else {
        Json::Number(Number::PosInt(n as u64))
    }
}

/// The outcome of replacing a whole attribute by a value.
pub open spec fn replaced(
    root: Seq<(Seq<char>, Json)>,
    s: Seq<char>,
    value: Json,
    schema: SchemaModel,
) -> Result<Json, PatchErrorModel> {
    patch::patched(
        Json::Object(root),
        seq![write_laws::operation(PatchOp::Replace, s, Some(value))],
        Some(schema),
    )
}

/// Whether a text is the path to a simple attribute that a schema lets be written.
pub open spec fn leads_to_writable(
    s: Seq<char>,
    attr: Seq<char>,
    schema: SchemaModel,
    i: int,
) -> bool {
    &&& write_laws::leads_to(s, write_laws::whole(attr))
    &&& write_laws::is_open(attr)
    &&& stands_first(schema.attributes, attr, i)
    &&& is_loose(schema.attributes[i].mutability)
    &&& schema.attributes[i].sub_attributes.len() == 0
}

/// Whether a request was accepted and gave an attribute a value.
pub open spec fn gives(
    outcome: Result<Json, PatchErrorModel>,
    root: Seq<(Seq<char>, Json)>,
    attr: Seq<char>,
    value: Json,
) -> bool {
    &&& outcome matches Ok(after)
    &&& after.get(attr) == Some(value)
    &&& write_laws::same_but_for(after, Json::Object(root), attr)
}

proof fn lemma_replaced(
    root: Seq<(Seq<char>, Json)>,
    s: Seq<char>,
    attr: Seq<char>,
    value: Json,
    schema: SchemaModel,
    i: int,
)
    requires
        leads_to_writable(s, attr, schema, i),
    ensures
        gives(
            replaced(root, s, value, schema),
            root,
            attr,
            patch::coerced(value, schema.attributes[i]),
        ),
{
    broadcast use json::lemma_lookup_put;

    lemma_tokens();
    write_laws::lemma_open(attr);
    law_the_first_definition_counts(schema.attributes, attr, i);
    lemma_one_operation(
        Json::Object(root),
        write_laws::operation(PatchOp::Replace, s, Some(value)),
        schema,
    );
}

/// A value that is neither a text nor an array is written as it is, and so is any text where the
/// attribute is none of `boolean`, `integer` and `decimal`, and any array where the attribute is
/// multi-valued or the array does not hold exactly one value.
pub proof fn law_other_values_are_written_as_they_are(
    root: Seq<(Seq<char>, Json)>,
    s: Seq<char>,
    attr: Seq<char>,
    value: Json,
    schema: SchemaModel,
    i: int,
)
    requires
        leads_to_writable(s, attr, schema, i),
    ensures
        !(value is String) && !(value is Array) ==> gives(
            replaced(root, s, value, schema),
            root,
            attr,
            value,
        ),
        value is String && schema.attributes[i].type_ != "boolean"@ && schema.attributes[i].type_
            != "integer"@ && schema.attributes[i].type_ != "decimal"@ ==> gives(
            replaced(root, s, value, schema),
            root,
            attr,
            value,
        ),
        value matches Json::Array(items) ==> (schema.attributes[i].multi_valued || items.len() != 1
            ==> gives(replaced(root, s, value, schema), root, attr, value)),
{
    lemma_replaced(root, s, attr, value, schema, i);
}

/// For an attribute that is not multi-valued an array of one value stands for that value, unless
/// that is an array again.
pub proof fn law_an_array_of_one_stands_for_its_value(
    root: Seq<(Seq<char>, Json)>,
    s: Seq<char>,
    attr: Seq<char>,
    value: Json,
    schema: SchemaModel,
    i: int,
)
    requires
        leads_to_writable(s, attr, schema, i),
        !schema.attributes[i].multi_valued,
        !(value is Array),
    ensures
        replaced(root, s, Json::Array(seq![value]), schema) == replaced(root, s, value, schema),
{
    lemma_one_operation(
        Json::Object(root),
        write_laws::operation(PatchOp::Replace, s, Some(Json::Array(seq![value]))),
        schema,
    );
    lemma_one_operation(
        Json::Object(root),
        write_laws::operation(PatchOp::Replace, s, Some(value)),
        schema,
    );
    law_the_first_definition_counts(schema.attributes, attr, i);
    assert(patch::coerced(Json::Array(seq![value]), schema.attributes[i]) == patch::coerced(
        value,
        schema.attributes[i],
    ));
}

/// `true` and `false` become booleans where the attribute is one, and no other text does.
pub proof fn law_boolean_texts_become_booleans(
    root: Seq<(Seq<char>, Json)>,
    s: Seq<char>,
    attr: Seq<char>,
    given: Seq<char>,
    schema: SchemaModel,
    i: int,
)
    requires
        leads_to_writable(s, attr, schema, i),
        schema.attributes[i].type_ == "boolean"@,
    ensures
        gives(
            replaced(root, s, Json::String(given), schema),
            root,
            attr,
            if given == "true"@ {
                Json::Bool(true)
            } else if given == "false"@ {
                Json::Bool(false)
            } else {
                Json::String(given)
            },
        ),
{
    lemma_types();
    lemma_replaced(root, s, attr, Json::String(given), schema, i);
}

/// The decimal text of an integer becomes that integer where the attribute is one, and a text that
/// is that of none in the range of `i64` stays.
pub proof fn law_integer_texts_become_integers(
    root: Seq<(Seq<char>, Json)>,
    s: Seq<char>,
    attr: Seq<char>,
    given: Seq<char>,
    n: i64,
    schema: SchemaModel,
    i: int,
)
    requires
        leads_to_writable(s, attr, schema, i),
        schema.attributes[i].type_ == "integer"@,
    ensures
        given == number::integer_text(n as int) ==> gives(
            replaced(root, s, Json::String(given), schema),
            root,
            attr,
            integer(n),
        ),
        (forall|k: i64| #[trigger] number::integer_text(k as int) != given) ==> gives(
            replaced(root, s, Json::String(given), schema),
            root,
            attr,
            Json::String(given),
        ),
{
    lemma_types();
    lemma_replaced(root, s, attr, Json::String(given), schema, i);
    if given == number::integer_text(n as int) {
        let found = number::integer_with_text(given)->0;
        number::law_decimal_text_is_unique(n as int, found as int);
    }
}

/// A finite number in JSON's form becomes its nearest double where the attribute is a decimal; any
/// other text stays.
pub proof fn law_decimal_texts_become_doubles(
    root: Seq<(Seq<char>, Json)>,
    s: Seq<char>,
    attr: Seq<char>,
    given: Seq<char>,
    schema: SchemaModel,
    i: int,
)
    requires
        leads_to_writable(s, attr, schema, i),
        schema.attributes[i].type_ == "decimal"@,
    ensures
        gives(
            replaced(root, s, Json::String(given), schema),
            root,
            attr,
            if number::is_decimal_text(given) && number::nearest_double(given) is Some {
                Json::Number(Number::Float(number::nearest_double(given)->0))
            } else {
                Json::String(given)
            },
        ),
{
    lemma_types();
    lemma_replaced(root, s, attr, Json::String(given), schema, i);
}

proof fn lemma_same_matches(
    f: FilterModel,
    entry: Json,
    attr: Seq<char>,
    schema: SchemaModel,
)
    requires
        is_unknown(schema.attributes, attr),
    ensures
        matching::entry_matches(f, entry, attr, Some(schema)) == matching::entry_matches(
            f,
            entry,
            attr,
            None,
        ),
    decreases f,
{
    law_the_first_definition_counts(schema.attributes, attr, 0);
    match f {
        FilterModel::And(a, b) | FilterModel::Or(a, b) => {
            lemma_same_matches(*a, entry, attr, schema);
            lemma_same_matches(*b, entry, attr, schema);
        },
        FilterModel::Not(a) => {
            lemma_same_matches(*a, entry, attr, schema);
        },
        _ => {},
    }
}

/// An operation on an attribute that a schema does not know does what it does without a schema.
pub proof fn law_unknown_attributes_are_not_held_to_a_schema(
    resource: Json,
    op: PatchOp,
    s: Seq<char>,
    value: Option<Json>,
    schema: SchemaModel,
)
    requires
        filter::parsed_patch_path(s) matches Ok(path) ==> is_unknown(
            schema.attributes,
            path.attr_path.attr_name,
        ),
    ensures
        patch::patched(resource, seq![write_laws::operation(op, s, value)], Some(schema))
            == patch::patched(resource, seq![write_laws::operation(op, s, value)], None),
{
    reveal_with_fuel(patch::after_operations, 2);
    let model = write_laws::operation(op, s, value);
    assert(seq![model].skip(1) =~= Seq::empty());
    if let Ok(path) = filter::parsed_patch_path(s) {
        let attr = path.attr_path.attr_name;
        law_the_first_definition_counts(schema.attributes, attr, 0);
        if let Some(f) = path.value_filter {
            assert forall|entry: Json|
                matching::entry_matches(f, entry, attr, Some(schema)) == #[trigger]
                matching::entry_matches(f, entry, attr, None) by {
                lemma_same_matches(f, entry, attr, schema);
            }
            if let Json::Object(root) = resource {
                if let Some(Json::Array(entries)) = json::lookup(root, attr) {
                    lemma_no_definition_no_refusal(
                        entries,
                        f,
                        attr,
                        resource,
                        write_laws::content(value),
                        schema,
                    );
                    lemma_same_choice(entries, f, attr, schema);
                    let sub = path.sub_attr_after_filter;
                    let new = write_laws::content(value);
                    assert(patch::removed(root, path, Some(schema)) == patch::removed(
                        root,
                        path,
                        None,
                    )) by {
                        lemma_same_removed(root, path, schema, entries, f);
                    }
                    assert(patch::written(
                        root,
                        path,
                        resource,
                        new,
                        op == PatchOp::Replace,
                        Some(schema),
                    ) == patch::written(root, path, resource, new, op == PatchOp::Replace, None)) by {
                        lemma_same_written(
                            root,
                            path,
                            resource,
                            new,
                            op == PatchOp::Replace,
                            schema,
                            entries,
                            f,
                        );
                    }
                }
            }
        }
    }
}

proof fn lemma_same_choice(
    entries: Seq<Json>,
    f: FilterModel,
    attr: Seq<char>,
    schema: SchemaModel,
)
    requires
        is_unknown(schema.attributes, attr),
    ensures
        patch::any_matches(entries, f, attr, Some(schema)) == patch::any_matches(
            entries,
            f,
            attr,
            None,
        ),
        patch::matches_are_complex(entries, f, attr, Some(schema)) == patch::matches_are_complex(
            entries,
            f,
            attr,
            None,
        ),
        patch::unmatched(entries, f, attr, Some(schema)) == patch::unmatched(
            entries,
            f,
            attr,
            None,
        ),
{
    assert forall|entry: Json|
        matching::entry_matches(f, entry, attr, Some(schema)) == #[trigger] matching::entry_matches(
            f,
            entry,
            attr,
            None,
        ) by {
        lemma_same_matches(f, entry, attr, schema);
    }
    assert forall|i: int|
        0 <= i < entries.len() implies matching::entry_matches(f, #[trigger] entries[i], attr, Some(schema))
        == matching::entry_matches(f, entries[i], attr, None) by {
        lemma_same_matches(f, entries[i], attr, schema);
    }
    let with_schema = |entry: Json| !matching::entry_matches(f, entry, attr, Some(schema));
    let without = |entry: Json| !matching::entry_matches(f, entry, attr, None);
    assert forall|entry: Json| #[trigger] with_schema(entry) == without(entry) by {
        lemma_same_matches(f, entry, attr, schema);
    }
    assert(with_schema =~= without);
}

proof fn lemma_no_definition_no_refusal(
    entries: Seq<Json>,
    f: FilterModel,
    attr: Seq<char>,
    original: Json,
    value: Json,
    schema: SchemaModel,
)
    requires
        is_unknown(schema.attributes, attr),
    ensures
        patch::replacement_refusal(entries, f, attr, original, value, Some(schema)) is None,
        patch::replacement_refusal(entries, f, attr, original, value, None) is None,
    decreases entries.len(),
{
    law_the_first_definition_counts(schema.attributes, attr, 0);
    if entries.len() > 0 {
        lemma_no_definition_no_refusal(entries.skip(1), f, attr, original, value, schema);
    }
}

proof fn lemma_same_removed(
    root: Seq<(Seq<char>, Json)>,
    path: filter::PatchPathModel,
    schema: SchemaModel,
    entries: Seq<Json>,
    f: FilterModel,
)
    requires
        is_unknown(schema.attributes, path.attr_path.attr_name),
        path.value_filter == Some(f),
        json::lookup(root, path.attr_path.attr_name) == Some(Json::Array(entries)),
    ensures
        patch::removed(root, path, Some(schema)) == patch::removed(root, path, None),
{
    let attr = path.attr_path.attr_name;
    lemma_same_choice(entries, f, attr, schema);
    if let Some(sub) = path.sub_attr_after_filter {
        let a = Seq::new(
            entries.len(),
            |i: int|
                if matching::entry_matches(f, entries[i], attr, Some(schema)) {
                    patch::entry_without(entries[i], sub)
                } else {
                    entries[i]
                },
        );
        let b = Seq::new(
            entries.len(),
            |i: int|
                if matching::entry_matches(f, entries[i], attr, None) {
                    patch::entry_without(entries[i], sub)
                } else {
                    entries[i]
                },
        );
        assert forall|i: int| 0 <= i < entries.len() implies a[i] == b[i] by {
            lemma_same_matches(f, entries[i], attr, schema);
        }
        assert(a =~= b);
    }
}

proof fn lemma_same_written(
    root: Seq<(Seq<char>, Json)>,
    path: filter::PatchPathModel,
    original: Json,
    value: Json,
    is_replace: bool,
    schema: SchemaModel,
    entries: Seq<Json>,
    f: FilterModel,
)
    requires
        is_unknown(schema.attributes, path.attr_path.attr_name),
        path.value_filter == Some(f),
        json::lookup(root, path.attr_path.attr_name) == Some(Json::Array(entries)),
    ensures
        patch::written(root, path, original, value, is_replace, Some(schema)) == patch::written(
            root,
            path,
            original,
            value,
            is_replace,
            None,
        ),
{
    let attr = path.attr_path.attr_name;
    law_the_first_definition_counts(schema.attributes, attr, 0);
    lemma_same_choice(entries, f, attr, schema);
    lemma_no_definition_no_refusal(entries, f, attr, original, value, schema);
    match path.sub_attr_after_filter {
        Some(sub) => {
            let typed = patch::coerced_for(Some(schema), attr, Some(sub), value);
            let plain = patch::coerced_for(None, attr, Some(sub), value);
            assert(typed == plain);
            let a = Seq::new(
                entries.len(),
                |i: int|
                    if matching::entry_matches(f, entries[i], attr, Some(schema)) {
                        patch::entry_with(entries[i], sub, typed)
                    } else {
                        entries[i]
                    },
            );
            let b = Seq::new(
                entries.len(),
                |i: int|
                    if matching::entry_matches(f, entries[i], attr, None) {
                        patch::entry_with(entries[i], sub, plain)
                    } else {
                        entries[i]
                    },
            );
            assert forall|i: int| 0 <= i < entries.len() implies a[i] == b[i] by {
                lemma_same_matches(f, entries[i], attr, schema);
            }
            assert(a =~= b);
            let with_schema = patch::written(
                root,
                path,
                original,
                value,
                is_replace,
                Some(schema),
            );
            let without = patch::written(root, path, original, value, is_replace, None);
            if !patch::any_matches(entries, f, attr, None) {
                assert(with_schema == Err::<Seq<(Seq<char>, Json)>, PatchErrorModel>(
                    PatchErrorModel::NoMatchingValue,
                ));
                assert(without == Err::<Seq<(Seq<char>, Json)>, PatchErrorModel>(
                    PatchErrorModel::NoMatchingValue,
                ));
            } else if !patch::matches_are_complex(entries, f, attr, None) {
                assert(with_schema == Err::<Seq<(Seq<char>, Json)>, PatchErrorModel>(
                    patch::not_complex(attr),
                ));
                assert(without == Err::<Seq<(Seq<char>, Json)>, PatchErrorModel>(
                    patch::not_complex(attr),
                ));
            } else {
                assert(with_schema == Ok::<Seq<(Seq<char>, Json)>, PatchErrorModel>(
                    json::put(root, attr, Json::Array(a)),
                ));
                assert(without == Ok::<Seq<(Seq<char>, Json)>, PatchErrorModel>(
                    json::put(root, attr, Json::Array(b)),
                ));
            }
        },
        None => {
            let a = patch::matches_replaced(entries, f, attr, value, Some(schema));
            let b = patch::matches_replaced(entries, f, attr, value, None);
            assert forall|i: int| 0 <= i < entries.len() implies a[i] == b[i] by {
                lemma_same_matches(f, entries[i], attr, schema);
            }
            assert(a =~= b);
        },
    }
}

} // verus!
