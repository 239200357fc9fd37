//! Which entries a filter in brackets chooses.

use crate::discovery;
use crate::discovery::SchemaModel;
use crate::filter::{CompModel, CompareOp, FilterModel, PathModel};
use crate::json::{Json, Number};
use crate::matching;
use crate::mutability_laws;
use crate::number;
use crate::text;
use vstd::prelude::*;

verus! {

/// Whether a path leads to a value inside an entry.
pub open spec fn leads_inside(entry: Json, path: PathModel, v: Json) -> bool {
    match path.sub_attr {
        None => entry.get(path.attr_name) == Some(v),
        Some(sub) => entry.get(path.attr_name) is Some && entry.get(path.attr_name)->0.get(sub) == Some(
            v,
        ),
    }
}

/// Whether a path leads nowhere inside an entry.
pub open spec fn leads_nowhere(entry: Json, path: PathModel) -> bool {
    ||| entry.get(path.attr_name) is None
    ||| path.sub_attr is Some && entry.get(path.attr_name)->0.get(path.sub_attr->0) is None
}

/// The outcome of comparing what a path leads to with a literal.
pub open spec fn chooses(
    entry: Json,
    path: PathModel,
    op: CompareOp,
    literal: CompModel,
    parent: Seq<char>,
    schema: Option<SchemaModel>,
) -> bool {
    matching::entry_matches(FilterModel::Compare(path, op, literal), entry, parent, schema)
}

/// A boolean equals the literal that spells it and no other, and no operator but `eq` holds of it:
/// every boolean matches exactly one of `eq true` and `eq false`.
pub proof fn law_booleans_equal_their_literal(
    entry: Json,
    path: PathModel,
    b: bool,
    op: CompareOp,
    literal: CompModel,
    parent: Seq<char>,
    schema: Option<SchemaModel>,
)
    requires
        leads_inside(entry, path, Json::Bool(b)),
    ensures
        chooses(entry, path, CompareOp::Eq, CompModel::True, parent, schema) <==> b,
        chooses(entry, path, CompareOp::Eq, CompModel::False, parent, schema) <==> !b,
        chooses(entry, path, CompareOp::Eq, CompModel::True, parent, schema) != chooses(
            entry,
            path,
            CompareOp::Eq,
            CompModel::False,
            parent,
            schema,
        ),
        op != CompareOp::Eq ==> !chooses(entry, path, op, literal, parent, schema),
        literal != CompModel::True && literal != CompModel::False ==> !chooses(
            entry,
            path,
            op,
            literal,
            parent,
            schema,
        ),
{
}

/// An object of one boolean member is chosen by the literal that spells the boolean and by no other.
pub proof fn law_a_lone_boolean_equals_its_literal(
    name: Seq<char>,
    b: bool,
    uri: Option<Seq<char>>,
    parent: Seq<char>,
    schema: Option<SchemaModel>,
)
    ensures
        ({
            let entry = Json::Object(seq![(name, Json::Bool(b))]);
            let path = PathModel { schema_uri: uri, attr_name: name, sub_attr: None };
            &&& chooses(entry, path, CompareOp::Eq, CompModel::True, parent, schema) <==> b
            &&& chooses(entry, path, CompareOp::Eq, CompModel::False, parent, schema) <==> !b
        }),
{
}

/// A null equals the literal null; nothing else holds of it, and nothing else equals that literal.
pub proof fn law_null_equals_null_alone(
    entry: Json,
    path: PathModel,
    v: Json,
    op: CompareOp,
    literal: CompModel,
    parent: Seq<char>,
    schema: Option<SchemaModel>,
)
    requires
        leads_inside(entry, path, v),
        v == Json::Null || literal == CompModel::Null,
    ensures
        chooses(entry, path, op, literal, parent, schema) <==> v == Json::Null && literal
            == CompModel::Null && op == CompareOp::Eq,
{
}

/// Values of one type never match a literal of another, not even by `ne`; arrays and objects match
/// none.
pub proof fn law_types_do_not_mix(
    entry: Json,
    path: PathModel,
    v: Json,
    op: CompareOp,
    literal: CompModel,
    parent: Seq<char>,
    schema: Option<SchemaModel>,
)
    requires
        leads_inside(entry, path, v),
        chooses(entry, path, op, literal, parent, schema),
    ensures
        v is String <==> literal is String,
        v is Number <==> literal is Number,
        v is Bool <==> literal is True || literal is False,
        v is Null <==> literal is Null,
        !(v is Array),
        !(v is Object),
{
}

/// Whether `a` stands before `b` in a dictionary: `a` is a proper beginning of `b`, or the first
/// character in which they differ comes earlier.
pub open spec fn stands_before(a: Seq<char>, b: Seq<char>) -> bool {
    exists|n: int|
        0 <= n <= a.len() && n < b.len() && #[trigger] a.take(n) == b.take(n) && (n == a.len() || a[n]
            < b[n])
}

proof fn lemma_stands_before(a: Seq<char>, b: Seq<char>)
    ensures
        text::precedes(a, b) <==> stands_before(a, b),
    decreases a.len(),
{
    if b.len() == 0 {
    } else if a.len() == 0 {
        assert(a.take(0) =~= b.take(0));
        assert(stands_before(a, b));
    } else if a[0] == b[0] {
        let (x, y) = (a.skip(1), b.skip(1));
        lemma_stands_before(x, y);
        if text::precedes(a, b) {
            let n = choose|n: int|
                0 <= n <= x.len() && n < y.len() && #[trigger] x.take(n) == y.take(n) && (n
                    == x.len() || x[n] < y[n]);
            assert(a.take(n + 1) =~= seq![a[0]] + x.take(n));
            assert(b.take(n + 1) =~= seq![b[0]] + y.take(n));
            assert(a.take(n + 1) == b.take(n + 1));
        }
        if stands_before(a, b) {
            let n = choose|n: int|
                0 <= n <= a.len() && n < b.len() && #[trigger] a.take(n) == b.take(n) && (n
                    == a.len() || a[n] < b[n]);
            if n > 0 {
                assert(x.take(n - 1) =~= a.take(n).skip(1));
                assert(y.take(n - 1) =~= b.take(n).skip(1));
                assert(x.take(n - 1) == y.take(n - 1));
            }
        }
    } else {
        if text::precedes(a, b) {
            assert(a.take(0) =~= b.take(0));
            assert(stands_before(a, b));
        }
        if stands_before(a, b) {
            let n = choose|n: int|
                0 <= n <= a.len() && n < b.len() && #[trigger] a.take(n) == b.take(n) && (n
                    == a.len() || a[n] < b[n]);
            if n > 0 {
                assert(a.take(n)[0] == b.take(n)[0]);
            }
        }
    }
}

proof fn lemma_parts(a: Seq<char>, b: Seq<char>)
    ensures
        text::has_part(a, b) <==> exists|x: Seq<char>, y: Seq<char>| a == #[trigger] (x + b + y),
        text::begins_with(a, b) <==> exists|y: Seq<char>| a == #[trigger] (b + y),
        text::finishes_with(a, b) <==> exists|x: Seq<char>| a == #[trigger] (x + b),
{
    if text::has_part(a, b) {
        let at = choose|at: int| text::occurs_at(a, b, at);
        assert(a =~= a.take(at) + b + a.skip(at + b.len()));
    }
    if exists|x: Seq<char>, y: Seq<char>| a == #[trigger] (x + b + y) {
        let (x, y) = choose|x: Seq<char>, y: Seq<char>| a == #[trigger] (x + b + y);
        assert(a.subrange(x.len() as int, (x.len() + b.len()) as int) =~= b);
        assert(text::occurs_at(a, b, x.len() as int));
    }
    if text::begins_with(a, b) {
        assert(a =~= b + a.skip(b.len() as int));
    }
    if exists|y: Seq<char>| a == #[trigger] (b + y) {
        let y = choose|y: Seq<char>| a == #[trigger] (b + y);
        assert(a.subrange(0, b.len() as int) =~= b);
    }
    if text::finishes_with(a, b) {
        assert(a =~= a.take(a.len() - b.len()) + b);
    }
    if exists|x: Seq<char>| a == #[trigger] (x + b) {
        let x = choose|x: Seq<char>| a == #[trigger] (x + b);
        assert(a.subrange(a.len() - b.len(), a.len() as int) =~= b);
    }
}

/// Whether text that a path leads to inside an entry of `parent` is compared letter by letter: the
/// first definition for the name declares it so, or the name is `resourceType` or `version` of
/// `meta`.
pub open spec fn compares_exactly(
    schema: Option<SchemaModel>,
    parent: Seq<char>,
    name: Seq<char>,
) -> bool {
    let folded = text::ascii_lower(name);
    ||| text::ascii_lower(parent) == "meta"@ && (folded == "resourcetype"@ || folded == "version"@)
    ||| exists|i: int, j: int| #[trigger] declares_exact(schema, parent, name, i, j)
}

/// Whether the definitions at `i`, and at `j` inside it, are the first for their names and make the
/// inner one case-exact.
pub open spec fn declares_exact(
    schema: Option<SchemaModel>,
    parent: Seq<char>,
    name: Seq<char>,
    i: int,
    j: int,
) -> bool {
    &&& schema is Some
    &&& mutability_laws::stands_first(schema->0.attributes, parent, i)
    &&& mutability_laws::stands_first(schema->0.attributes[i].sub_attributes, name, j)
    &&& schema->0.attributes[i].sub_attributes[j].case_exact
}

proof fn lemma_named_first(attributes: Seq<discovery::AttributeModel>, name: Seq<char>)
    ensures
        discovery::named(attributes, name) matches Some(def) ==> exists|i: int| #[trigger]
            mutability_laws::stands_first(attributes, name, i) && attributes[i] == def,
    decreases attributes.len(),
{
    if attributes.len() > 0 {
        if text::same_ignoring_case(attributes[0].name, name) {
            assert(mutability_laws::stands_first(attributes, name, 0));
        } else if discovery::named(attributes, name) is Some {
            let rest = attributes.skip(1);
            lemma_named_first(rest, name);
            let i = choose|i: int| #[trigger]
                mutability_laws::stands_first(rest, name, i) && rest[i] == discovery::named(
                    rest,
                    name,
                )->0;
            assert forall|j: int| 0 <= j < i + 1 implies text::ascii_lower(
                (#[trigger] attributes[j]).name,
            ) != text::ascii_lower(name) by {
                if j > 0 {
                    assert(rest[j - 1] == attributes[j]);
                }
            }
            assert(mutability_laws::stands_first(attributes, name, i + 1));
        }
    }
}

/// Text inside the entries of an attribute is compared letter by letter exactly where a schema
/// declares the sub-attribute case-exact, and under `meta` for the two sub-attributes that are so in
/// every schema.
pub proof fn law_case_counts_where_it_is_declared(
    schema: Option<SchemaModel>,
    parent: Seq<char>,
    name: Seq<char>,
    sub: Option<Seq<char>>,
)
    ensures
        discovery::case_exact_of(schema, Some(parent), name, sub) <==> compares_exactly(
            schema,
            parent,
            name,
        ),
{
    reveal_strlit("meta");
    reveal_strlit("resourcetype");
    reveal_strlit("version");
    reveal_strlit("created");
    reveal_strlit("lastmodified");
    reveal_strlit("location");
    assert(text::ascii_lower("meta"@) =~= "meta"@);
    if let Some(s) = schema {
        lemma_named_first(s.attributes, parent);
        if let Some(top) = discovery::named(s.attributes, parent) {
            lemma_named_first(top.sub_attributes, name);
            let i = choose|i: int| #[trigger]
                mutability_laws::stands_first(s.attributes, parent, i) && s.attributes[i] == top;
            if let Some(def) = discovery::named(top.sub_attributes, name) {
                let j = choose|j: int| #[trigger]
                    mutability_laws::stands_first(top.sub_attributes, name, j)
                        && top.sub_attributes[j] == def;
                assert(def.case_exact ==> declares_exact(schema, parent, name, i, j));
            }
        }
        if exists|i: int, j: int| #[trigger] declares_exact(schema, parent, name, i, j) {
            let (i, j) = choose|i: int, j: int| #[trigger]
                declares_exact(schema, parent, name, i, j);
            mutability_laws::law_the_first_definition_counts(s.attributes, parent, i);
            mutability_laws::law_the_first_definition_counts(
                s.attributes[i].sub_attributes,
                name,
                j,
            );
        }
    }
}

proof fn lemma_text_comparison(
    entry: Json,
    path: PathModel,
    s: Seq<char>,
    op: CompareOp,
    t: Seq<char>,
    parent: Seq<char>,
    schema: Option<SchemaModel>,
)
    requires
        leads_inside(entry, path, Json::String(s)),
    ensures
        chooses(entry, path, op, CompModel::String(t), parent, schema) <==> matching::texts_compare(
            as_compared(s, schema, parent, path.attr_name),
            op,
            as_compared(t, schema, parent, path.attr_name),
        ),
{
    law_case_counts_where_it_is_declared(schema, parent, path.attr_name, path.sub_attr);
}

/// A text as it is compared: in small letters unless the case of its letters is declared to count.
pub open spec fn as_compared(
    s: Seq<char>,
    schema: Option<SchemaModel>,
    parent: Seq<char>,
    name: Seq<char>,
) -> Seq<char> {
    if compares_exactly(schema, parent, name) {
        s
    } else {
        text::unicode_lower(s)
    }
}

/// `eq` and `ne` compare texts as a whole. The case of letters counts only where it is declared to.
pub proof fn law_texts_are_equal_or_not(
    entry: Json,
    path: PathModel,
    s: Seq<char>,
    t: Seq<char>,
    parent: Seq<char>,
    schema: Option<SchemaModel>,
)
    requires
        leads_inside(entry, path, Json::String(s)),
    ensures
        ({
            let a = as_compared(s, schema, parent, path.attr_name);
            let b = as_compared(t, schema, parent, path.attr_name);
            let literal = CompModel::String(t);
            &&& chooses(entry, path, CompareOp::Eq, literal, parent, schema) <==> a == b
            &&& chooses(entry, path, CompareOp::Ne, literal, parent, schema) <==> a != b
        }),
{
    lemma_text_comparison(entry, path, s, CompareOp::Eq, t, parent, schema);
    lemma_text_comparison(entry, path, s, CompareOp::Ne, t, parent, schema);
}

/// `co`, `sw` and `ew` ask whether a text is the literal with something around it, after it or
/// before it, possibly nothing.
pub proof fn law_texts_hold_begin_and_end(
    entry: Json,
    path: PathModel,
    s: Seq<char>,
    t: Seq<char>,
    parent: Seq<char>,
    schema: Option<SchemaModel>,
)
    requires
        leads_inside(entry, path, Json::String(s)),
    ensures
        ({
            let a = as_compared(s, schema, parent, path.attr_name);
            let b = as_compared(t, schema, parent, path.attr_name);
            let literal = CompModel::String(t);
            &&& chooses(entry, path, CompareOp::Co, literal, parent, schema) <==> exists|
                x: Seq<char>,
                y: Seq<char>,
            |
                a == #[trigger] (x + b + y)
            &&& chooses(entry, path, CompareOp::Sw, literal, parent, schema) <==> exists|
                y: Seq<char>,
            |
                a == #[trigger] (b + y)
            &&& chooses(entry, path, CompareOp::Ew, literal, parent, schema) <==> exists|
                x: Seq<char>,
            |
                a == #[trigger] (x + b)
        }),
{
    lemma_text_comparison(entry, path, s, CompareOp::Co, t, parent, schema);
    lemma_text_comparison(entry, path, s, CompareOp::Sw, t, parent, schema);
    lemma_text_comparison(entry, path, s, CompareOp::Ew, t, parent, schema);
    lemma_parts(
        as_compared(s, schema, parent, path.attr_name),
        as_compared(t, schema, parent, path.attr_name),
    );
}

/// `lt`, `gt`, `le` and `ge` compare texts by their places in a dictionary.
pub proof fn law_texts_are_in_dictionary_order(
    entry: Json,
    path: PathModel,
    s: Seq<char>,
    t: Seq<char>,
    parent: Seq<char>,
    schema: Option<SchemaModel>,
)
    requires
        leads_inside(entry, path, Json::String(s)),
    ensures
        ({
            let a = as_compared(s, schema, parent, path.attr_name);
            let b = as_compared(t, schema, parent, path.attr_name);
            let literal = CompModel::String(t);
            &&& chooses(entry, path, CompareOp::Lt, literal, parent, schema) <==> stands_before(a, b)
            &&& chooses(entry, path, CompareOp::Gt, literal, parent, schema) <==> stands_before(b, a)
            &&& chooses(entry, path, CompareOp::Le, literal, parent, schema) <==> !stands_before(
                b,
                a,
            )
            &&& chooses(entry, path, CompareOp::Ge, literal, parent, schema) <==> !stands_before(
                a,
                b,
            )
        }),
{
    lemma_text_comparison(entry, path, s, CompareOp::Lt, t, parent, schema);
    lemma_text_comparison(entry, path, s, CompareOp::Gt, t, parent, schema);
    lemma_text_comparison(entry, path, s, CompareOp::Le, t, parent, schema);
    lemma_text_comparison(entry, path, s, CompareOp::Ge, t, parent, schema);
    let a = as_compared(s, schema, parent, path.attr_name);
    let b = as_compared(t, schema, parent, path.attr_name);
    lemma_stands_before(a, b);
    lemma_stands_before(b, a);
    matching::law_texts_compare_one_way(a, b);
}

/// How a number compares with a literal, both taken as bit patterns of doubles. Patterns past that
/// of infinity, apart from the sign, stand for no number, and such a one differs from every literal.
/// Otherwise positive numbers are in the order of their patterns, negative ones in the reverse of
/// it, every negative one but zero comes before every positive one, and the zeros are equal. No
/// number holds, begins or ends with anything.
pub proof fn law_numbers_compare_by_their_value(
    entry: Json,
    path: PathModel,
    n: Number,
    x: u64,
    y: u64,
    spelling: Seq<char>,
    parent: Seq<char>,
    schema: Option<SchemaModel>,
)
    requires
        leads_inside(entry, path, Json::Number(n)),
        match n {
            Number::Float(bits) => x == bits,
            Number::PosInt(i) => number::integer_double(i as int) == Some(x),
            Number::NegInt(i) => number::integer_double(i as int) == Some(x),
        },
    ensures
        ({
            let sign: int = 0x8000_0000_0000_0000;
            let infinity: int = 0x7ff0_0000_0000_0000;
            let x_is_no_number = infinity < x < sign || sign + infinity < x;
            let y_is_no_number = infinity < y < sign || sign + infinity < y;
            let literal = CompModel::Number(y, spelling);
            let eq = chooses(entry, path, CompareOp::Eq, literal, parent, schema);
            let lt = chooses(entry, path, CompareOp::Lt, literal, parent, schema);
            let gt = chooses(entry, path, CompareOp::Gt, literal, parent, schema);
            &&& chooses(entry, path, CompareOp::Ne, literal, parent, schema) == !eq
            &&& chooses(entry, path, CompareOp::Le, literal, parent, schema) == (lt || eq)
            &&& chooses(entry, path, CompareOp::Ge, literal, parent, schema) == (gt || eq)
            &&& !chooses(entry, path, CompareOp::Co, literal, parent, schema)
            &&& !chooses(entry, path, CompareOp::Sw, literal, parent, schema)
            &&& !chooses(entry, path, CompareOp::Ew, literal, parent, schema)
            &&& x_is_no_number || y_is_no_number ==> !eq && !lt && !gt
            &&& !x_is_no_number && !y_is_no_number ==> {
                &&& eq <==> x == y || (x == 0 && y == sign) || (x == sign && y == 0)
                &&& x < sign && y < sign ==> (lt <==> x < y) && (gt <==> y < x)
                &&& x >= sign && y >= sign ==> (lt <==> y < x) && (gt <==> x < y)
                &&& x >= sign && y < sign ==> !gt && (lt <==> !eq)
                &&& x < sign && y >= sign ==> !lt && (gt <==> !eq)
            }
        }),
{
}

/// A presence test chooses what has a value there: anything but null, an empty text and an empty
/// array.
pub proof fn law_presence_asks_for_a_value(
    entry: Json,
    path: PathModel,
    v: Json,
    parent: Seq<char>,
    schema: Option<SchemaModel>,
)
    requires
        leads_inside(entry, path, v),
    ensures
        matching::entry_matches(FilterModel::Present(path), entry, parent, schema) <==> v
            != Json::Null && v != Json::String(Seq::empty()) && v != Json::Array(Seq::empty()),
{
    if let Json::String(s) = v {
        assert(s.len() == 0 ==> s =~= Seq::empty());
    }
    if let Json::Array(items) = v {
        assert(items.len() == 0 ==> items =~= Seq::empty());
    }
}

/// An entry without the attribute of a test does not pass it, whatever the test, so it passes the
/// negated one.
pub proof fn law_what_is_missing_passes_no_test(
    entry: Json,
    path: PathModel,
    op: CompareOp,
    literal: CompModel,
    parent: Seq<char>,
    schema: Option<SchemaModel>,
)
    requires
        leads_nowhere(entry, path),
    ensures
        !chooses(entry, path, op, literal, parent, schema),
        !matching::entry_matches(FilterModel::Present(path), entry, parent, schema),
        matching::entry_matches(
            FilterModel::Not(Box::new(FilterModel::Compare(path, op, literal))),
            entry,
            parent,
            schema,
        ),
{
    let test = FilterModel::Compare(path, op, literal);
    law_filters_combine(test, test, path, entry, parent, schema);
}

/// `and`, `or` and `not` mean what they say, and a bracket inside a bracket chooses nothing.
pub proof fn law_filters_combine(
    a: FilterModel,
    b: FilterModel,
    path: PathModel,
    entry: Json,
    parent: Seq<char>,
    schema: Option<SchemaModel>,
)
    ensures
        ({
            let first = matching::entry_matches(a, entry, parent, schema);
            let second = matching::entry_matches(b, entry, parent, schema);
            let (x, y) = (Box::new(a), Box::new(b));
            &&& matching::entry_matches(FilterModel::And(x, y), entry, parent, schema) <==> first
                && second
            &&& matching::entry_matches(FilterModel::Or(x, y), entry, parent, schema) <==> first
                || second
            &&& matching::entry_matches(FilterModel::Not(x), entry, parent, schema) <==> !first
            &&& !matching::entry_matches(FilterModel::ValuePath(path, x), entry, parent, schema)
        }),
{
}

} // verus!
