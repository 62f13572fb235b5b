use crate::json_type::{str_equal, JsonMap, JsonMapTrait, JsonType, ThreadSafeJsonType};
use crate::json_type::{holds_kind, EnumJsonType};
use crate::number::{integer_value, integral_value, is_integral, Number};
use vstd::prelude::*;

verus! {

/// A JSON value held as plain data; an object keeps its entries in the
/// order they were given.
#[derive(Debug, PartialEq)]
pub enum Value {
    Null,
    Boolean(bool),
    Number(Number),
    String(String),
    Array(Vec<Value>),
    Object(Vec<(String, Value)>),
}

/// The value of the first entry whose key is `name`.
pub open spec fn lookup(entries: Seq<(String, Value)>, name: Seq<char>) -> Option<Value>
    decreases entries.len(),
{
    if entries.len() == 0 {
        None
    } else if entries[0].0@ == name {
        Some(entries[0].1)
    } else {
        lookup(entries.drop_first(), name)
    }
}

/// A found value, unless it is null: null counts as not found.
pub open spec fn present(found: Option<Value>) -> Option<Value> {
    match found {
        Some(Value::Null) => None,
        other => other,
    }
}

pub open spec fn entries_view(entries: Seq<(String, Value)>) -> Seq<(Seq<char>, Value)> {
    entries.map_values(|e: (String, Value)| (e.0@, e.1))
}

/// No two entries of an object share a key.
pub open spec fn keys_unique(entries: Seq<(String, Value)>) -> bool {
    forall|i: int, j: int| 0 <= i < j < entries.len() ==> entries[i].0@ != entries[j].0@
}

/// Every object inside `v`, `v` included, has one entry per key, as a
/// parsed JSON document does.
pub open spec fn well_formed(v: Value) -> bool
    decreases v,
{
    match v {
        Value::Object(entries) => keys_unique(entries@) && forall|i: int|
            0 <= i < entries@.len() ==> #[trigger] well_formed_entry(entries@[i]),
        Value::Array(items) => forall|i: int|
            0 <= i < items@.len() ==> well_formed(#[trigger] items@[i]),
        _ => true,
    }
}

/// The value of an object entry is well formed.
pub open spec fn well_formed_entry(e: (String, Value)) -> bool
    decreases e,
{
    well_formed(e.1)
}

/// In an object with one entry per key, looking a key up finds the entry
/// that holds it, so lookup and the listed items always agree.
pub proof fn lemma_lookup_unique(entries: Seq<(String, Value)>, i: int)
    requires
        keys_unique(entries),
        0 <= i < entries.len(),
    ensures
        lookup(entries, entries[i].0@) == Some(entries[i].1),
    decreases i,
{
    if i > 0 {
        let rest = entries.drop_first();
        assert(rest[i - 1] == entries[i]);
        lemma_lookup_unique(rest, i - 1);
    }
}

/// For a well-formed object, each listed item is what a lookup of its key
/// gives, null reported as absent.
pub proof fn lemma_items_agree_with_lookup(entries: Vec<(String, Value)>, i: int)
    requires
        well_formed(Value::Object(entries)),
        0 <= i < entries@.len(),
    ensures
        Value::Object(entries).spec_get_attribute(entries@[i].0@) == present(Some(entries@[i].1)),
{
    lemma_lookup_unique(entries@, i);
}

/// How many of the seven kind predicates hold for `v`.
pub open spec fn kinds_holding(v: Value) -> nat {
    (if holds_kind(EnumJsonType::Array, v) { 1nat } else { 0nat })
        + (if holds_kind(EnumJsonType::Boolean, v) { 1nat } else { 0nat })
        + (if holds_kind(EnumJsonType::Integer, v) { 1nat } else { 0nat })
        + (if holds_kind(EnumJsonType::Null, v) { 1nat } else { 0nat })
        + (if holds_kind(EnumJsonType::Number, v) { 1nat } else { 0nat })
        + (if holds_kind(EnumJsonType::Object, v) { 1nat } else { 0nat })
        + (if holds_kind(EnumJsonType::String, v) { 1nat } else { 0nat })
}

/// Exactly one kind predicate holds for a value that is not an integer; an
/// integer is also a number, and for it exactly those two hold, integer
/// coming first in the classification order.
pub proof fn lemma_one_kind(v: Value)
    ensures
        v.spec_as_integer() is None ==> kinds_holding(v) == 1,
        v.spec_as_integer() is Some ==> kinds_holding(v) == 2 && v.spec_as_number() is Some,
{
}

/// A number's integer accessor answers exactly when its fractional part is
/// zero, for numbers whose value fits in an `i128`.
pub proof fn lemma_integer_iff_whole(n: Number)
    requires
        !n.nan,
        i128::MIN <= integral_value(n) <= i128::MAX,
    ensures
        Value::Number(n).spec_as_integer() is Some <==> is_integral(n),
        is_integral(n) ==> Value::Number(n).spec_as_integer() == Some(integral_value(n)),
        Value::Number(n).spec_as_number() == Some(n),
{
}

/// A key bound to null is reported exactly like a missing key, and a null
/// element exactly like a position out of bounds.
pub proof fn lemma_null_is_absent(entries: Seq<(String, Value)>, items: Seq<Value>, name: Seq<char>, index: int)
    requires
        lookup(entries, name) is None || lookup(entries, name) == Some(Value::Null),
        !(0 <= index < items.len()) || items[index] == Value::Null,
    ensures
        forall|e: Vec<(String, Value)>| e@ == entries ==> (#[trigger] Value::Object(e).spec_get_attribute(name)) is None,
        forall|a: Vec<Value>| a@ == items ==> (#[trigger] Value::Array(a).spec_get_index(index)) is None,
{
}

impl JsonType for Value {
    open spec fn spec_as_array(&self) -> Option<Seq<Value>> {
        match self {
            Value::Array(items) => Some(items@),
            _ => None,
        }
    }

    open spec fn spec_as_boolean(&self) -> Option<bool> {
        match self {
            Value::Boolean(b) => Some(*b),
            _ => None,
        }
    }

    open spec fn spec_as_integer(&self) -> Option<int> {
        match self {
            Value::Number(n) => integer_value(*n),
            _ => None,
        }
    }

    open spec fn spec_is_null(&self) -> bool {
        self is Null
    }

    open spec fn spec_as_number(&self) -> Option<Number> {
        match self {
            Value::Number(n) => Some(*n),
            _ => None,
        }
    }

    open spec fn spec_is_object(&self) -> bool {
        self is Object
    }

    open spec fn spec_as_string(&self) -> Option<Seq<char>> {
        match self {
            Value::String(s) => Some(s@),
            _ => None,
        }
    }

    open spec fn spec_get_attribute(&self, name: Seq<char>) -> Option<Value> {
        match self {
            Value::Object(entries) => present(lookup(entries@, name)),
            _ => None,
        }
    }

    open spec fn spec_get_index(&self, index: int) -> Option<Value> {
        match self {
            Value::Array(items) => if 0 <= index < items@.len() {
                present(Some(items@[index]))
            } else {
                None
            },
            _ => None,
        }
    }

    proof fn lemma_has_kind(&self) {
    }

    proof fn lemma_integer_is_number(&self) {
    }

    fn as_array(&self) -> (r: Option<Vec<&Value>>) {
        match self {
            Value::Array(items) => {
                let mut out: Vec<&Value> = Vec::new();
                let mut i: usize = 0;
                while i < items.len()
                    invariant
                        *self == Value::Array(*items),
                        0 <= i <= items@.len(),
                        out@.len() == i,
                        forall|j: int| 0 <= j < i ==> *(#[trigger] out@[j]) == items@[j],
                    decreases items@.len() - i,
                {
                    out.push(&items[i]);
                    i = i + 1;
                }
                proof {
                    assert(crate::json_type::deref_all(out@) =~= items@);
                }
                Some(out)
            },
            _ => None,
        }
    }

    fn as_boolean(&self) -> (r: Option<bool>) {
        match self {
            Value::Boolean(b) => Some(*b),
            _ => None,
        }
    }

    fn as_integer(&self) -> (r: Option<i128>) {
        match self {
            Value::Number(n) => n.as_integer(),
            _ => None,
        }
    }

    fn as_null(&self) -> (r: Option<()>) {
        match self {
            Value::Null => Some(()),
            _ => None,
        }
    }

    fn as_number(&self) -> (r: Option<Number>) {
        match self {
            Value::Number(n) => Some(*n),
            _ => None,
        }
    }

    fn as_object(&self) -> (r: Option<JsonMap<'_, Value>>) {
        match self {
            Value::Object(_) => Some(JsonMap::new(self)),
            _ => None,
        }
    }

    fn as_string(&self) -> (r: Option<&str>) {
        match self {
            Value::String(s) => Some(s.as_str()),
            _ => None,
        }
    }

    fn get_attribute(&self, attribute_name: &str) -> (r: Option<&Value>) {
        match self {
            Value::Object(entries) => {
                let mut i: usize = 0;
                assert(entries@.skip(0) =~= entries@);
                while i < entries.len()
                    invariant
                        *self == Value::Object(*entries),
                        0 <= i <= entries@.len(),
                        lookup(entries@, attribute_name@) == lookup(
                            entries@.skip(i as int),
                            attribute_name@,
                        ),
                    decreases entries@.len() - i,
                {
                    assert(entries@.skip(i as int).drop_first() =~= entries@.skip(i + 1));
                    if str_equal(entries[i].0.as_str(), attribute_name) {
                        assert(entries@.skip(i as int)[0] == entries@[i as int]);
                        let found = &entries[i].1;
                        assert(lookup(entries@, attribute_name@) == Some(*found));
                        if matches!(found, Value::Null) {
                            return None;
                        }
                        return Some(found);
                    }
                    i = i + 1;
                }
                None
            },
            _ => None,
        }
    }

    fn get_index(&self, index: usize) -> (r: Option<&Value>) {
        match self {
            Value::Array(items) => {
                if index < items.len() {
                    let found = &items[index];
                    if matches!(found, Value::Null) {
                        None
                    } else {
                        Some(found)
                    }
                } else {
                    None
                }
            },
            _ => None,
        }
    }
}

impl ThreadSafeJsonType for Value {

}

impl<'json> JsonMapTrait<'json, Value> for JsonMap<'json, Value> {
    open spec fn spec_items(&self) -> Seq<(Seq<char>, Value)> {
        match *self.0 {
            Value::Object(entries) => entries_view(entries@),
            _ => seq![],
        }
    }

    fn items(&'json self) -> (r: Vec<(&'json str, &'json Value)>) {
        let mut out: Vec<(&'json str, &'json Value)> = Vec::new();
        match self.0 {
            Value::Object(entries) => {
                let mut i: usize = 0;
                assert(entries@.skip(0) =~= entries@);
                while i < entries.len()
                    invariant
                        *self.0 == Value::Object(*entries),
                        0 <= i <= entries@.len(),
                        crate::json_type::items_view(out@) == entries_view(entries@.take(i as int)),
                    decreases entries@.len() - i,
                {
                    let entry = &entries[i];
                    out.push((entry.0.as_str(), &entry.1));
                    proof {
                        assert(entries_view(entries@.take(i + 1)) =~= entries_view(
                            entries@.take(i as int),
                        ).push((entries@[i as int].0@, entries@[i as int].1)));
                        assert(crate::json_type::items_view(out@) =~= entries_view(
                            entries@.take(i + 1),
                        ));
                    }
                    i = i + 1;
                }
                assert(entries@.take(i as int) =~= entries@);
            },
            _ => {
                assert(crate::json_type::items_view(out@) =~= seq![]);
            },
        }
        out
    }
}

} // verus!
