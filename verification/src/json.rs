//! JSON documents: values, and the ordered members of an object.

use crate::number;
use crate::number::double_is_same;
use crate::text;
use crate::text::{comes_before, same_text};
use vstd::prelude::*;

verus! {

/// A JSON number. A non-negative integer that fits is `PosInt`, a negative one `NegInt`; every
/// other number is a finite double, held as its bit pattern.
#[derive(Clone, Copy, Debug)]
pub enum Number {
    PosInt(u64),
    NegInt(i64),
    Float(u64),
}

/// A JSON value.
#[derive(Debug)]
pub enum Value {
    Null,
    Bool(bool),
    Number(Number),
    String(String),
    Array(Vec<Value>),
    Object(Members),
}

/// The members of a JSON object, kept in the order of their names; no name occurs twice.
#[derive(Debug)]
pub struct Members {
    entries: Vec<(String, Value)>,
}

/// A JSON document, as contracts speak of it.
#[verifier::ext_equal]
pub enum Json {
    Null,
    Bool(bool),
    Number(Number),
    String(Seq<char>),
    Array(Seq<Json>),
    Object(Seq<(Seq<char>, Json)>),
}

impl View for Value {
    type V = Json;

    open spec fn view(&self) -> Json
        decreases self,
    {
        match self {
            Value::Null => Json::Null,
            Value::Bool(b) => Json::Bool(*b),
            Value::Number(n) => Json::Number(*n),
            Value::String(s) => Json::String(s@),
            Value::Array(items) => Json::Array(views(items@)),
            Value::Object(members) => Json::Object(members.view()),
        }
    }
}

/// The documents that a sequence of values stands for.
pub open spec fn views(items: Seq<Value>) -> Seq<Json>
    decreases items,
{
    Seq::new(
        items.len(),
        |i: int|
            if 0 <= i < items.len() {
                items[i].view()
            } else {
                Json::Null
            },
    )
}

impl View for Members {
    type V = Seq<(Seq<char>, Json)>;

    closed spec fn view(&self) -> Seq<(Seq<char>, Json)>
        decreases self,
    {
        entry_views(self.entries@)
    }
}

spec fn entry_views(entries: Seq<(String, Value)>) -> Seq<(Seq<char>, Json)>
    decreases entries,
{
    Seq::new(
        entries.len(),
        |i: int|
            if 0 <= i < entries.len() {
                (entries[i].0@, entries[i].1.view())
            } else {
                (Seq::empty(), Json::Null)
            },
    )
}

/// The view of an optional reference.
pub open spec fn viewed<T: View>(r: Option<&T>) -> Option<T::V> {
    match r {
        Some(x) => Some(x@),
        None => None,
    }
}

/// The value of the member called `name`, where there is one.
pub open spec fn lookup(members: Seq<(Seq<char>, Json)>, name: Seq<char>) -> Option<Json>
    decreases members.len(),
{
    if members.len() == 0 {
        None
    } else if members[0].0 == name {
        Some(members[0].1)
    } else {
        lookup(members.skip(1), name)
    }
}

/// The members with the one called `name` set to `value`; a new name takes its place in order.
pub open spec fn put(
    members: Seq<(Seq<char>, Json)>,
    name: Seq<char>,
    value: Json,
) -> Seq<(Seq<char>, Json)>
    decreases members.len(),
{
    if members.len() == 0 {
        seq![(name, value)]
    } else if members[0].0 == name {
        seq![(name, value)] + members.skip(1)
    } else if text::precedes(name, members[0].0) {
        seq![(name, value)] + members
    } else {
        seq![members[0]] + put(members.skip(1), name, value)
    }
}

/// The members without the one called `name`.
pub open spec fn without(members: Seq<(Seq<char>, Json)>, name: Seq<char>) -> Seq<
    (Seq<char>, Json),
>
    decreases members.len(),
{
    if members.len() == 0 {
        members
    } else if members[0].0 == name {
        members.skip(1)
    } else {
        seq![members[0]] + without(members.skip(1), name)
    }
}

/// The same names, each with the value at its position in `values`.
pub open spec fn with_values(members: Seq<(Seq<char>, Json)>, values: Seq<Json>) -> Seq<
    (Seq<char>, Json),
> {
    Seq::new(members.len(), |i: int| (members[i].0, values[i]))
}

/// Whether the names strictly increase.
pub open spec fn sorted(members: Seq<(Seq<char>, Json)>) -> bool {
    forall|i: int, j: int|
        0 <= i < j < members.len() ==> text::precedes(
            (#[trigger] members[i]).0,
            (#[trigger] members[j]).0,
        )
}

impl Json {
    /// The value of a member, where the document is an object that has it.
    pub open spec fn get(self, name: Seq<char>) -> Option<Json> {
        match self {
            Json::Object(members) => lookup(members, name),
            _ => None,
        }
    }

    /// The text of a JSON string.
    pub open spec fn as_text(self) -> Option<Seq<char>> {
        match self {
            Json::String(s) => Some(s),
            _ => None,
        }
    }
}

/// Whether two numbers are equal: of the same kind and value.
pub open spec fn same_number(a: Number, b: Number) -> bool {
    match (a, b) {
        (Number::PosInt(x), Number::PosInt(y)) => x == y,
        (Number::NegInt(x), Number::NegInt(y)) => x == y,
        (Number::Float(x), Number::Float(y)) => number::double_same(x, y),
        _ => false,
    }
}

/// Whether two documents are equal; a double counts by its value, not by its bits.
pub open spec fn same_json(a: Json, b: Json) -> bool
    decreases a,
{
    match (a, b) {
        (Json::Null, Json::Null) => true,
        (Json::Bool(x), Json::Bool(y)) => x == y,
        (Json::Number(x), Json::Number(y)) => same_number(x, y),
        (Json::String(x), Json::String(y)) => x == y,
        (Json::Array(x), Json::Array(y)) => x.len() == y.len() && forall|i: int|
            0 <= i < x.len() ==> same_json(#[trigger] x[i], y[i]),
        (Json::Object(x), Json::Object(y)) => x.len() == y.len() && forall|i: int|
            0 <= i < x.len() ==> (#[trigger] x[i]).0 == y[i].0 && same_json(x[i].1, y[i].1),
        _ => false,
    }
}

pub broadcast proof fn lemma_views_len(items: Seq<Value>)
    ensures
        #[trigger] views(items).len() == items.len(),
{
}

pub broadcast proof fn lemma_views_index(items: Seq<Value>, i: int)
    requires
        0 <= i < items.len(),
    ensures
        #[trigger] views(items)[i] == items[i]@,
{
}

pub broadcast proof fn lemma_views_push(items: Seq<Value>, item: Value)
    ensures
        #[trigger] views(items.push(item)) == views(items).push(item@),
{
    assert(views(items.push(item)) =~= views(items).push(item@));
}

pub broadcast group group_views {
    lemma_views_len,
    lemma_views_index,
    lemma_views_push,
}

proof fn lemma_entries_push(entries: Seq<(String, Value)>, entry: (String, Value))
    ensures
        entry_views(entries.push(entry)) == entry_views(entries).push((entry.0@, entry.1@)),
{
    assert(entry_views(entries.push(entry)) =~= entry_views(entries).push((entry.0@, entry.1@)));
}

proof fn lemma_entries_index(entries: Seq<(String, Value)>, i: int)
    requires
        0 <= i < entries.len(),
    ensures
        entry_views(entries)[i] == (entries[i].0@, entries[i].1@),
{
}

/// Looking a name up after it was set gives the new value; every other name is as before.
pub broadcast proof fn lemma_lookup_put(
    members: Seq<(Seq<char>, Json)>,
    name: Seq<char>,
    value: Json,
    other: Seq<char>,
)
    ensures
        #[trigger] lookup(put(members, name, value), other) == (if other == name {
            Some(value)
        } else {
            lookup(members, other)
        }),
    decreases members.len(),
{
    reveal_with_fuel(lookup, 2);
    let after = put(members, name, value);
    if members.len() == 0 {
        assert(after.skip(1) =~= members);
    } else if members[0].0 == name {
        assert(after.skip(1) =~= members.skip(1));
    } else if text::precedes(name, members[0].0) {
        assert(after.skip(1) =~= members);
    } else {
        assert(after.skip(1) =~= put(members.skip(1), name, value));
        lemma_lookup_put(members.skip(1), name, value, other);
    }
}

/// Removing a name leaves every other one as it was.
pub broadcast proof fn lemma_lookup_without(
    members: Seq<(Seq<char>, Json)>,
    name: Seq<char>,
    other: Seq<char>,
)
    requires
        other != name,
    ensures
        #[trigger] lookup(without(members, name), other) == lookup(members, other),
    decreases members.len(),
{
    reveal_with_fuel(lookup, 2);
    let after = without(members, name);
    if members.len() == 0 {
    } else if members[0].0 == name {
    } else {
        assert(after.skip(1) =~= without(members.skip(1), name));
        lemma_lookup_without(members.skip(1), name, other);
    }
}

/// In an ordered object a removed name is gone.
pub proof fn lemma_without_is_gone(members: Seq<(Seq<char>, Json)>, name: Seq<char>)
    requires
        sorted(members),
    ensures
        lookup(without(members, name), name) is None,
    decreases members.len(),
{
    reveal_with_fuel(lookup, 2);
    if members.len() == 0 {
    } else if members[0].0 == name {
        assert forall|i: int| 0 <= i < members.skip(1).len() implies (#[trigger] members.skip(
            1,
        )[i]).0 != name by {
            text::lemma_precedes_irreflexive(name);
            assert(members.skip(1)[i] == members[i + 1]);
        }
        lemma_lookup_absent(members.skip(1), name);
    } else {
        assert(without(members, name).skip(1) =~= without(members.skip(1), name));
        lemma_without_is_gone(members.skip(1), name);
    }
}

/// A name that no member has is not found.
pub proof fn lemma_lookup_absent(members: Seq<(Seq<char>, Json)>, name: Seq<char>)
    requires
        forall|i: int| 0 <= i < members.len() ==> (#[trigger] members[i]).0 != name,
    ensures
        lookup(members, name) is None,
    decreases members.len(),
{
    if members.len() > 0 {
        assert forall|i: int| 0 <= i < members.skip(1).len() implies (#[trigger] members.skip(
            1,
        )[i]).0 != name by {
            assert(members.skip(1)[i] == members[i + 1]);
        }
        lemma_lookup_absent(members.skip(1), name);
    }
}

/// A name that is found stands at some position with its value.
pub proof fn lemma_lookup_position(members: Seq<(Seq<char>, Json)>, name: Seq<char>) -> (at: int)
    requires
        lookup(members, name) is Some,
    ensures
        0 <= at < members.len(),
        members[at] == (name, lookup(members, name)->0),
    decreases members.len(),
{
    if members[0].0 == name {
        0
    } else {
        1 + lemma_lookup_position(members.skip(1), name)
    }
}

proof fn lemma_put_names(members: Seq<(Seq<char>, Json)>, name: Seq<char>, value: Json, i: int)
    requires
        0 <= i < put(members, name, value).len(),
    ensures
        put(members, name, value)[i] == (name, value) || exists|j: int|
            0 <= j < members.len() && members[j] == put(members, name, value)[i],
    decreases members.len(),
{
    let after = put(members, name, value);
    if members.len() == 0 || after[i] == (name, value) {
    } else if members[0].0 == name {
        assert(after[i] == members[i]);
    } else if text::precedes(name, members[0].0) {
        assert(after[i] == members[i - 1]);
    } else if i == 0 {
        assert(after[i] == members[0]);
    } else {
        lemma_put_names(members.skip(1), name, value, i - 1);
        let j = choose|j: int|
            0 <= j < members.skip(1).len() && members.skip(1)[j] == after[i];
        assert(members[j + 1] == after[i]);
    }
}

/// Setting a member keeps the names in order.
pub proof fn lemma_put_sorted(members: Seq<(Seq<char>, Json)>, name: Seq<char>, value: Json)
    requires
        sorted(members),
    ensures
        sorted(put(members, name, value)),
    decreases members.len(),
{
    let after = put(members, name, value);
    if members.len() == 0 {
    } else if members[0].0 == name {
        assert forall|i: int, j: int| 0 <= i < j < after.len() implies text::precedes(
            (#[trigger] after[i]).0,
            (#[trigger] after[j]).0,
        ) by {
            assert(after[i].0 == members[i].0 && after[j].0 == members[j].0);
        }
    } else if text::precedes(name, members[0].0) {
        assert forall|i: int, j: int| 0 <= i < j < after.len() implies text::precedes(
            (#[trigger] after[i]).0,
            (#[trigger] after[j]).0,
        ) by {
            assert(after[j] == members[j - 1]);
            if i == 0 {
                if j > 1 {
                    text::lemma_precedes_transitive(name, members[0].0, members[j - 1].0);
                }
            } else {
                assert(after[i] == members[i - 1]);
            }
        }
    } else {
        let rest = members.skip(1);
        lemma_put_sorted(rest, name, value);
        text::lemma_precedes_total(name, members[0].0);
        assert forall|i: int, j: int| 0 <= i < j < after.len() implies text::precedes(
            (#[trigger] after[i]).0,
            (#[trigger] after[j]).0,
        ) by {
            assert(after[j] == put(rest, name, value)[j - 1]);
            if i == 0 {
                lemma_put_names(rest, name, value, j - 1);
                if after[j] != (name, value) {
                    let k = choose|k: int|
                        0 <= k < rest.len() && rest[k] == put(rest, name, value)[j - 1];
                    assert(members[k + 1] == after[j]);
                }
            } else {
                assert(after[i] == put(rest, name, value)[i - 1]);
            }
        }
    }
}

proof fn lemma_without_names(members: Seq<(Seq<char>, Json)>, name: Seq<char>)
    ensures
        without(members, name) == members || exists|at: int|
            0 <= at < members.len() && members[at].0 == name && without(members, name)
                == #[trigger] members.remove(at),
    decreases members.len(),
{
    if members.len() == 0 {
    } else if members[0].0 == name {
        assert(members.skip(1) =~= members.remove(0));
    } else {
        lemma_without_names(members.skip(1), name);
        if without(members.skip(1), name) == members.skip(1) {
            assert(without(members, name) =~= members);
        } else {
            let at = choose|at: int|
                0 <= at < members.skip(1).len() && members.skip(1)[at].0 == name && without(
                    members.skip(1),
                    name,
                ) == #[trigger] members.skip(1).remove(at);
            assert(without(members, name) =~= members.remove(at + 1));
        }
    }
}

/// Removing a member keeps the names in order.
pub proof fn lemma_without_sorted(members: Seq<(Seq<char>, Json)>, name: Seq<char>)
    requires
        sorted(members),
    ensures
        sorted(without(members, name)),
{
    lemma_without_names(members, name);
}

impl Value {
    fn duplicate(&self) -> (r: Value)
        ensures
            r@ == self@,
        decreases self,
    {
        match self {
            Value::Null => Value::Null,
            Value::Bool(b) => Value::Bool(*b),
            Value::Number(n) => Value::Number(*n),
            Value::String(s) => Value::String(s.clone()),
            Value::Array(items) => {
                let mut out: Vec<Value> = Vec::new();
                let mut i: usize = 0;
                while i < items.len()
                    invariant
                        self == Value::Array(*items),
                        i <= items.len(),
                        views(out@) == views(items@).take(i as int),
                    decreases items.len() - i,
                {
                    assert(decreases_to!(*self => self->Array_0));
                    assert(decreases_to!(items => items@));
                    let item = items[i].duplicate();
                    proof {
                        lemma_views_push(out@, item);
                        lemma_views_index(items@, i as int);
                    }
                    out.push(item);
                    i += 1;
                }
                assert(views(out@) =~= views(items@));
                Value::Array(out)
            },
            Value::Object(members) => {
                proof {
                    use_type_invariant(members);
                }
                let entries = &members.entries;
                let mut out: Vec<(String, Value)> = Vec::new();
                let mut i: usize = 0;
                while i < entries.len()
                    invariant
                        self == Value::Object(*members),
                        entries == members.entries,
                        i <= entries.len(),
                        entry_views(out@) == entry_views(entries@).take(i as int),
                    decreases entries.len() - i,
                {
                    assert(decreases_to!(*self => self->Object_0));
                    assert(decreases_to!(self->Object_0 => self->Object_0.entries));
                    assert(decreases_to!(entries => entries@));
                    assert(decreases_to!(entries@ => entries@[i as int]));
                    let copy = (entries[i].0.clone(), entries[i].1.duplicate());
                    proof {
                        lemma_entries_push(out@, copy);
                        lemma_entries_index(entries@, i as int);
                    }
                    out.push(copy);
                    i += 1;
                }
                assert(entry_views(out@) =~= members@);
                Value::Object(Members { entries: out })
            },
        }
    }
}

impl Clone for Value {
    fn clone(&self) -> (r: Self)
        ensures
            r@ == self@,
    {
        self.duplicate()
    }
}

/// Whether two numbers are equal.
pub fn numbers_equal(a: &Number, b: &Number) -> (r: bool)
    ensures
        r == same_number(*a, *b),
{
    match (a, b) {
        (Number::PosInt(x), Number::PosInt(y)) => *x == *y,
        (Number::NegInt(x), Number::NegInt(y)) => *x == *y,
        (Number::Float(x), Number::Float(y)) => double_is_same(*x, *y),
        _ => false,
    }
}

impl Value {
    /// Whether two values are equal.
    pub fn same_as(&self, other: &Value) -> (r: bool)
        ensures
            r == same_json(self@, other@),
        decreases self,
    {
        match (self, other) {
            (Value::Null, Value::Null) => true,
            (Value::Bool(x), Value::Bool(y)) => *x == *y,
            (Value::Number(x), Value::Number(y)) => numbers_equal(x, y),
            (Value::String(x), Value::String(y)) => same_text(x.as_str(), y.as_str()),
            (Value::Array(x), Value::Array(y)) => {
                proof {
                    lemma_views_len(x@);
                    lemma_views_len(y@);
                }
                if x.len() != y.len() {
                    return false;
                }
                let mut i: usize = 0;
                while i < x.len()
                    invariant
                        *self == Value::Array(*x),
                        *other == Value::Array(*y),
                        x.len() == y.len(),
                        i <= x.len(),
                        forall|j: int|
                            0 <= j < i ==> same_json(#[trigger] views(x@)[j], views(y@)[j]),
                    decreases x.len() - i,
                {
                    assert(decreases_to!(*self => self->Array_0));
                    assert(decreases_to!(x => x@));
                    proof {
                        lemma_views_index(x@, i as int);
                        lemma_views_index(y@, i as int);
                    }
                    if !x[i].same_as(&y[i]) {
                        return false;
                    }
                    i += 1;
                }
                true
            },
            (Value::Object(x), Value::Object(y)) => {
                if x.len() != y.len() {
                    return false;
                }
                let mut i: usize = 0;
                while i < x.len()
                    invariant
                        *self == Value::Object(*x),
                        *other == Value::Object(*y),
                        x@.len() == y@.len(),
                        i <= x@.len(),
                        forall|j: int|
                            0 <= j < i ==> (#[trigger] x@[j]).0 == y@[j].0 && same_json(
                                x@[j].1,
                                y@[j].1,
                            ),
                    decreases x@.len() - i,
                {
                    assert(decreases_to!(*self => self->Object_0));
                    if !same_text(x.name_at(i), y.name_at(i)) {
                        return false;
                    }
                    if !x.value_at(i).same_as(y.value_at(i)) {
                        return false;
                    }
                    i += 1;
                }
                true
            },
            _ => false,
        }
    }

    /// The value of a member, where this is an object that has it.
    pub fn get(&self, name: &str) -> (value: Option<&Value>)
        ensures
            viewed(value) == self@.get(name@),
    {
        match self {
            Value::Object(members) => members.get(name),
            _ => None,
        }
    }

    /// The text of a JSON string.
    pub fn as_str(&self) -> (s: Option<&str>)
        ensures
            (match s {
                Some(t) => Some(t@),
                None => None,
            }) == self@.as_text(),
    {
        match self {
            Value::String(s) => Some(s.as_str()),
            _ => None,
        }
    }

    /// The JSON string with the given text.
    pub fn text(s: &str) -> (value: Value)
        ensures
            value@ == Json::String(s@),
    {
        Value::String(s.to_owned())
    }
}

impl PartialEq for Value {
    fn eq(&self, other: &Value) -> (r: bool) {
        self.same_as(other)
    }
}

impl vstd::std_specs::cmp::PartialEqSpecImpl for Value {
    open spec fn obeys_eq_spec() -> bool {
        true
    }

    open spec fn eq_spec(&self, other: &Value) -> bool {
        same_json(self@, other@)
    }
}

impl Members {
    #[verifier::type_invariant]
    spec fn in_order(&self) -> bool {
        sorted(self@)
    }

    /// No members.
    pub fn new() -> (r: Members)
        ensures
            r@ == Seq::<(Seq<char>, Json)>::empty(),
    {
        let entries: Vec<(String, Value)> = Vec::new();
        assert(entry_views(entries@) =~= Seq::<(Seq<char>, Json)>::empty());
        Members { entries }
    }

    /// How many members there are. Their names are all different, and in order.
    pub fn len(&self) -> (n: usize)
        ensures
            n == self@.len(),
            sorted(self@),
    {
        proof {
            use_type_invariant(self);
        }
        self.entries.len()
    }

    /// Whether there is no member.
    pub fn is_empty(&self) -> (r: bool)
        ensures
            r == (self@.len() == 0),
    {
        self.entries.len() == 0
    }

    /// The name at a position.
    pub fn name_at(&self, i: usize) -> (name: &str)
        requires
            i < self@.len(),
        ensures
            name@ == self@[i as int].0,
    {
        self.entries[i].0.as_str()
    }

    /// The value at a position.
    pub fn value_at(&self, i: usize) -> (value: &Value)
        requires
            i < self@.len(),
        ensures
            value@ == self@[i as int].1,
            decreases_to!(self => value),
    {
        assert(decreases_to!(self => self.entries));
        assert(decreases_to!(self.entries => self.entries@));
        assert(decreases_to!(self.entries@ => self.entries@[i as int]));
        &self.entries[i].1
    }

    /// The value of the member called `name`.
    pub fn get(&self, name: &str) -> (value: Option<&Value>)
        ensures
            viewed(value) == lookup(self@, name@),
            value matches Some(v) ==> decreases_to!(self => v),
    {
        let mut i: usize = 0;
        assert(self@.skip(0) =~= self@);
        while i < self.entries.len()
            invariant
                i <= self.entries.len(),
                lookup(self@, name@) == lookup(self@.skip(i as int), name@),
            decreases self.entries.len() - i,
        {
            if same_text(self.name_at(i), name) {
                return Some(self.value_at(i));
            }
            assert(self@.skip(i as int).skip(1) =~= self@.skip(i + 1));
            i += 1;
        }
        None
    }

    /// Whether there is a member called `name`.
    pub fn contains_key(&self, name: &str) -> (r: bool)
        ensures
            r == (lookup(self@, name@) is Some),
    {
        self.get(name).is_some()
    }

    /// Sets the member called `name`.
    pub fn insert(&mut self, name: String, value: Value)
        ensures
            final(self)@ == put(old(self)@, name@, value@),
    {
        proof {
            use_type_invariant(&*self);
            lemma_put_sorted(self@, name@, value@);
        }
        let mut entries: Vec<(String, Value)> = Vec::new();
        std::mem::swap(&mut entries, &mut self.entries);
        let ghost before = entries@;
        let mut i: usize = 0;
        assert(entry_views(before).skip(0) =~= entry_views(before));
        assert(put(entry_views(before), name@, value@) =~= entry_views(before).take(0) + put(
            entry_views(before),
            name@,
            value@,
        ));
        while i < entries.len() && !same_text(entries[i].0.as_str(), name.as_str())
            && !comes_before(name.as_str(), entries[i].0.as_str())
            invariant
                i <= entries.len(),
                entries@ == before,
                put(entry_views(before), name@, value@) == entry_views(before).take(i as int) + put(
                    entry_views(before).skip(i as int),
                    name@,
                    value@,
                ),
            decreases entries.len() - i,
        {
            proof {
                let rest = entry_views(before).skip(i as int);
                assert(rest.skip(1) =~= entry_views(before).skip(i + 1));
                assert(entry_views(before).take(i as int) + (seq![rest[0]] + put(
                    rest.skip(1),
                    name@,
                    value@,
                )) =~= entry_views(before).take(i + 1) + put(rest.skip(1), name@, value@));
            }
            i += 1;
        }
        let ghost shown = value@;
        if i < entries.len() && same_text(entries[i].0.as_str(), name.as_str()) {
            let ghost key = name@;
            entries.set(i, (name, value));
            proof {
                let rest = entry_views(before).skip(i as int);
                assert(rest.skip(1) =~= entry_views(before).skip(i + 1));
                assert(entry_views(entries@) =~= entry_views(before).take(i as int) + (seq![
                    (key, shown),
                ] + entry_views(before).skip(i + 1)));
            }
        } else {
            let ghost key = name@;
            entries.insert(i, (name, value));
            proof {
                assert(entry_views(entries@) =~= entry_views(before).take(i as int) + (seq![
                    (key, shown),
                ] + entry_views(before).skip(i as int)));
                if i == before.len() {
                    assert(entry_views(before).skip(i as int) =~= Seq::<
                        (Seq<char>, Json),
                    >::empty());
                    assert(seq![(key, shown)] + entry_views(before).skip(i as int) =~= seq![
                        (key, shown),
                    ]);
                }
            }
        }
        self.entries = entries;
    }

    /// Removes the member called `name` and gives its value.
    pub fn remove(&mut self, name: &str) -> (value: Option<Value>)
        ensures
            final(self)@ == without(old(self)@, name@),
            (match value {
                Some(v) => Some(v@),
                None => None,
            }) == lookup(old(self)@, name@),
            lookup(final(self)@, name@) is None,
    {
        proof {
            use_type_invariant(&*self);
            lemma_without_sorted(self@, name@);
            lemma_without_is_gone(self@, name@);
        }
        let mut entries: Vec<(String, Value)> = Vec::new();
        std::mem::swap(&mut entries, &mut self.entries);
        let ghost before = entries@;
        let mut i: usize = 0;
        assert(entry_views(before).skip(0) =~= entry_views(before));
        assert(without(entry_views(before), name@) =~= entry_views(before).take(0) + without(
            entry_views(before),
            name@,
        ));
        while i < entries.len() && !same_text(entries[i].0.as_str(), name)
            invariant
                i <= entries.len(),
                entries@ == before,
                lookup(entry_views(before), name@) == lookup(
                    entry_views(before).skip(i as int),
                    name@,
                ),
                without(entry_views(before), name@) == entry_views(before).take(i as int) + without(
                    entry_views(before).skip(i as int),
                    name@,
                ),
            decreases entries.len() - i,
        {
            proof {
                let rest = entry_views(before).skip(i as int);
                assert(rest.skip(1) =~= entry_views(before).skip(i + 1));
                assert(entry_views(before).take(i as int) + (seq![rest[0]] + without(
                    rest.skip(1),
                    name@,
                )) =~= entry_views(before).take(i + 1) + without(rest.skip(1), name@));
            }
            i += 1;
        }
        let value = if i < entries.len() {
            let (_, v) = entries.remove(i);
            proof {
                let rest = entry_views(before).skip(i as int);
                assert(rest.skip(1) =~= entry_views(before).skip(i + 1));
                assert(entry_views(entries@) =~= entry_views(before).take(i as int)
                    + entry_views(before).skip(i + 1));
            }
            Some(v)
        } else {
            assert(entry_views(before).take(i as int) + entry_views(before).skip(i as int)
                =~= entry_views(before));
            None
        };
        self.entries = entries;
        value
    }

    /// The same names with other values.
    pub fn with_values(&self, values: Vec<Value>) -> (r: Members)
        requires
            values.len() == self@.len(),
        ensures
            r@ == with_values(self@, views(values@)),
    {
        proof {
            use_type_invariant(self);
        }
        let mut values = values;
        let ghost all = values@;
        let mut entries: Vec<(String, Value)> = Vec::new();
        let mut i: usize = self.entries.len();
        while i > 0
            invariant
                i <= self.entries.len(),
                all.len() == self@.len(),
                values@ == all.take(i as int),
                entry_views(entries@) == with_values(self@, views(all)).skip(i as int),
            decreases i,
        {
            i -= 1;
            let value = values.pop().unwrap();
            let entry = (self.entries[i].0.clone(), value);
            proof {
                lemma_views_index(all, i as int);
            }
            let ghost before = entries@;
            entries.insert(0, entry);
            assert(entry_views(entries@) =~= seq![(entry.0@, entry.1@)] + entry_views(before));
        }
        assert(entry_views(entries@) =~= with_values(self@, views(all)));
        Members { entries }
    }
}

impl Clone for Members {
    fn clone(&self) -> (r: Self)
        ensures
            r@ == self@,
    {
        let mut values: Vec<Value> = Vec::new();
        let mut i: usize = 0;
        while i < self.len()
            invariant
                i <= self@.len(),
                values.len() == i,
                forall|j: int| 0 <= j < i ==> views(values@)[j] == (#[trigger] self@[j]).1,
            decreases self@.len() - i,
        {
            let value = self.value_at(i).clone();
            proof {
                lemma_views_push(values@, value);
            }
            values.push(value);
            i += 1;
        }
        assert(with_values(self@, views(values@)) =~= self@);
        self.with_values(values)
    }
}

} // verus!
