//! Whether an entry of a multi-valued attribute matches a filter.
//!
//! Searching a whole collection by a filter is up to the storage behind it. Here a filter chooses
//! among entries at hand, inside one resource.

use crate::discovery;
use crate::discovery::{is_case_exact, SchemaModel, SchemaResource};
use crate::filter::{AttrPath, CompModel, CompValue, CompareOp, Filter, FilterModel, PathModel};
use crate::json::{viewed, Json, Number, Value};
use crate::number;
use crate::number::{double_is_less, double_is_same, double_of_integer};
use crate::text;
use crate::text::{comes_before, contains, ends_with, same_text, starts_with, to_unicode_lower};
use vstd::prelude::*;

verus! {

/// The bit pattern that stands for no number.
pub const NAN_BITS: u64 = 0x7ff8_0000_0000_0000;

/// The value that an attribute path leads to inside an entry.
pub open spec fn resolved(path: PathModel, entry: Json) -> Option<Json> {
    match entry.get(path.attr_name) {
        None => None,
        Some(base) => match path.sub_attr {
            Some(sub) => base.get(sub),
            None => Some(base),
        },
    }
}

/// Whether a value counts as absent for a presence test: null, an empty text or an empty array.
pub open spec fn counts_as_absent(v: Json) -> bool {
    match v {
        Json::Null => true,
        Json::String(s) => s.len() == 0,
        Json::Array(items) => items.len() == 0,
        _ => false,
    }
}

/// The double nearest to a number.
pub open spec fn number_double(n: Number) -> u64 {
    let nearest = match n {
        Number::PosInt(i) => number::integer_double(i as int),
        Number::NegInt(i) => number::integer_double(i as int),
        Number::Float(bits) => Some(bits),
    };
    match nearest {
        Some(bits) => bits,
        None => NAN_BITS,
    }
}

/// Whether a comparison of two texts holds.
pub open spec fn texts_compare(a: Seq<char>, op: CompareOp, b: Seq<char>) -> bool {
    match op {
        CompareOp::Eq => a == b,
        CompareOp::Ne => a != b,
        CompareOp::Co => text::has_part(a, b),
        CompareOp::Sw => text::begins_with(a, b),
        CompareOp::Ew => text::finishes_with(a, b),
        CompareOp::Gt => text::precedes(b, a),
        CompareOp::Ge => text::precedes(b, a) || a == b,
        CompareOp::Lt => text::precedes(a, b),
        CompareOp::Le => text::precedes(a, b) || a == b,
    }
}

/// Of any two texts exactly one of `lt`, `eq` and `gt` holds, and the other operators follow from
/// these.
pub proof fn law_texts_compare_one_way(a: Seq<char>, b: Seq<char>)
    ensures
        texts_compare(a, CompareOp::Lt, b) || texts_compare(a, CompareOp::Eq, b) || texts_compare(
            a,
            CompareOp::Gt,
            b,
        ),
        !(texts_compare(a, CompareOp::Lt, b) && texts_compare(a, CompareOp::Eq, b)),
        !(texts_compare(a, CompareOp::Gt, b) && texts_compare(a, CompareOp::Eq, b)),
        !(texts_compare(a, CompareOp::Lt, b) && texts_compare(a, CompareOp::Gt, b)),
        texts_compare(a, CompareOp::Ne, b) == !texts_compare(a, CompareOp::Eq, b),
        texts_compare(a, CompareOp::Le, b) == !texts_compare(a, CompareOp::Gt, b),
        texts_compare(a, CompareOp::Ge, b) == !texts_compare(a, CompareOp::Lt, b),
{
    text::lemma_precedes_total(a, b);
    text::lemma_precedes_irreflexive(a);
    if text::precedes(a, b) && text::precedes(b, a) {
        text::lemma_precedes_transitive(a, b, a);
    }
}

/// Whether a comparison of two doubles holds; the operators on texts never do.
pub open spec fn doubles_compare(a: u64, op: CompareOp, b: u64) -> bool {
    match op {
        CompareOp::Eq => number::double_same(a, b),
        CompareOp::Ne => !number::double_same(a, b),
        CompareOp::Gt => number::double_less(b, a),
        CompareOp::Ge => number::double_less(b, a) || number::double_same(a, b),
        CompareOp::Lt => number::double_less(a, b),
        CompareOp::Le => number::double_less(a, b) || number::double_same(a, b),
        CompareOp::Co | CompareOp::Sw | CompareOp::Ew => false,
    }
}

/// Whether a comparison of a value with a filter's literal holds. Texts fold case unless
/// `case_exact`; values of different types never compare.
pub open spec fn comparison_holds(
    actual: Json,
    op: CompareOp,
    expected: CompModel,
    case_exact: bool,
) -> bool {
    match (actual, expected) {
        (Json::String(a), CompModel::String(b)) => if case_exact {
            texts_compare(a, op, b)
        } else {
            texts_compare(text::unicode_lower(a), op, text::unicode_lower(b))
        },
        (Json::Number(a), CompModel::Number(b, _)) => doubles_compare(number_double(a), op, b),
        (Json::Bool(a), CompModel::True) => op == CompareOp::Eq && a,
        (Json::Bool(a), CompModel::False) => op == CompareOp::Eq && !a,
        (Json::Null, CompModel::Null) => op == CompareOp::Eq,
        _ => false,
    }
}

/// Whether an entry of the attribute `parent` matches a filter.
pub open spec fn entry_matches(
    f: FilterModel,
    entry: Json,
    parent: Seq<char>,
    schema: Option<SchemaModel>,
) -> bool
    decreases f,
{
    match f {
        FilterModel::Present(path) => resolved(path, entry) matches Some(v) && !counts_as_absent(v),
        FilterModel::Compare(path, op, expected) => resolved(path, entry) matches Some(v)
            && comparison_holds(
            v,
            op,
            expected,
            discovery::case_exact_of(schema, Some(parent), path.attr_name, path.sub_attr),
        ),
        FilterModel::And(a, b) => entry_matches(*a, entry, parent, schema) && entry_matches(
            *b,
            entry,
            parent,
            schema,
        ),
        FilterModel::Or(a, b) => entry_matches(*a, entry, parent, schema) || entry_matches(
            *b,
            entry,
            parent,
            schema,
        ),
        FilterModel::Not(a) => !entry_matches(*a, entry, parent, schema),
        // A value path inside a value path matches nothing.
        FilterModel::ValuePath(_, _) => false,
    }
}

fn is_empty(v: &Value) -> (r: bool)
    ensures
        r == counts_as_absent(v@),
{
    match v {
        Value::Null => true,
        Value::String(s) => s.as_str().is_empty(),
        Value::Array(items) => {
            proof {
                crate::json::lemma_views_len(items@);
            }
            items.len() == 0
        },
        _ => false,
    }
}

fn resolve_scalar<'a>(path: &AttrPath, value: &'a Value) -> (r: Option<&'a Value>)
    ensures
        viewed(r) == resolved(path@, value@),
{
    match value.get(path.attr_name.as_str()) {
        Some(base) => match &path.sub_attr {
            Some(sub) => base.get(sub.as_str()),
            None => Some(base),
        },
        None => None,
    }
}

/// Whether a comparison of two texts holds; the texts are taken as they are.
pub fn compare_texts(a: &str, op: CompareOp, b: &str) -> (r: bool)
    ensures
        r == texts_compare(a@, op, b@),
{
    match op {
        CompareOp::Eq => same_text(a, b),
        CompareOp::Ne => !same_text(a, b),
        CompareOp::Co => contains(a, b),
        CompareOp::Sw => starts_with(a, b),
        CompareOp::Ew => ends_with(a, b),
        CompareOp::Gt => comes_before(b, a),
        CompareOp::Ge => comes_before(b, a) || same_text(a, b),
        CompareOp::Lt => comes_before(a, b),
        CompareOp::Le => comes_before(a, b) || same_text(a, b),
    }
}

/// Whether a comparison of two doubles, given by their bit patterns, holds.
pub fn compare_doubles(a: u64, op: CompareOp, b: u64) -> (r: bool)
    ensures
        r == doubles_compare(a, op, b),
{
    match op {
        CompareOp::Eq => double_is_same(a, b),
        CompareOp::Ne => !double_is_same(a, b),
        CompareOp::Gt => double_is_less(b, a),
        CompareOp::Ge => double_is_less(b, a) || double_is_same(a, b),
        CompareOp::Lt => double_is_less(a, b),
        CompareOp::Le => double_is_less(a, b) || double_is_same(a, b),
        CompareOp::Co => false,
        CompareOp::Sw => false,
        CompareOp::Ew => false,
    }
}

fn double_of(n: Number) -> (bits: u64)
    ensures
        bits == number_double(n),
{
    let nearest = match n {
        Number::PosInt(i) => double_of_integer(i as i128),
        Number::NegInt(i) => double_of_integer(i as i128),
        Number::Float(bits) => Some(bits),
    };
    match nearest {
        Some(bits) => bits,
        None => NAN_BITS,
    }
}

/// Whether a comparison of a value with a filter's literal holds.
pub fn compare(actual: &Value, op: &CompareOp, expected: &CompValue, case_exact: bool) -> (r: bool)
    ensures
        r == comparison_holds(actual@, *op, expected@, case_exact),
{
    match (actual, expected) {
        (Value::String(a), CompValue::String(b)) => if case_exact {
            compare_texts(a.as_str(), *op, b.as_str())
        } else {
            compare_texts(
                to_unicode_lower(a.as_str()).as_str(),
                *op,
                to_unicode_lower(b.as_str()).as_str(),
            )
        },
        (Value::Number(a), CompValue::Number(b, _)) => compare_doubles(double_of(*a), *op, *b),
        (Value::Bool(a), CompValue::True) => *op == CompareOp::Eq && *a,
        (Value::Bool(a), CompValue::False) => *op == CompareOp::Eq && !*a,
        (Value::Null, CompValue::Null) => *op == CompareOp::Eq,
        _ => false,
    }
}

/// Whether an entry of the attribute `parent_attr` matches a filter. The schema, where there is
/// one, decides which sub-attributes are case-exact.
pub fn evaluate(
    filter: &Filter,
    value: &Value,
    parent_attr: &str,
    schema: Option<&SchemaResource>,
) -> (r: bool)
    ensures
        r == entry_matches(filter@, value@, parent_attr@, viewed(schema)),
    decreases filter,
{
    match filter {
        Filter::Present(path) => match resolve_scalar(path, value) {
            Some(v) => !is_empty(v),
            None => false,
        },
        Filter::Compare(path, op, expected) => match resolve_scalar(path, value) {
            Some(v) => {
                let sub = match &path.sub_attr {
                    Some(s) => Some(s.as_str()),
                    None => None,
                };
                let case_exact = is_case_exact(
                    schema,
                    Some(parent_attr),
                    path.attr_name.as_str(),
                    sub,
                );
                compare(v, op, expected, case_exact)
            },
            None => false,
        },
        Filter::And(a, b) => evaluate(a, value, parent_attr, schema) && evaluate(
            b,
            value,
            parent_attr,
            schema,
        ),
        Filter::Or(a, b) => evaluate(a, value, parent_attr, schema) || evaluate(
            b,
            value,
            parent_attr,
            schema,
        ),
        Filter::Not(a) => !evaluate(a, value, parent_attr, schema),
        Filter::ValuePath(_, _) => false,
    }
}

} // verus!
