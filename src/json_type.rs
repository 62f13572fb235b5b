use crate::fragment::{components_of, fragment_components, parse_index, parse_index_of};
use crate::number::Number;
use vstd::prelude::*;

verus! {

/// The seven primitive kinds of a JSON value.
#[derive(Clone, Copy, Debug, PartialEq, Eq, Structural)]
pub enum EnumJsonType {
    Array,
    Boolean,
    Integer,
    Null,
    Number,
    Object,
    String,
}

/// The canonical lower-case name of each kind.
pub open spec fn kind_name(t: EnumJsonType) -> Seq<char> {
    match t {
        EnumJsonType::Array => "array"@,
        EnumJsonType::Boolean => "boolean"@,
        EnumJsonType::Integer => "integer"@,
        EnumJsonType::Null => "null"@,
        EnumJsonType::Number => "number"@,
        EnumJsonType::Object => "object"@,
        EnumJsonType::String => "string"@,
    }
}

/// The kind whose canonical name is exactly `s`, if there is one.
pub open spec fn kind_from_name(s: Seq<char>) -> Option<EnumJsonType> {
    if exists|t: EnumJsonType| kind_name(t) == s {
        Some(choose|t: EnumJsonType| kind_name(t) == s)
    } else {
        None
    }
}

/// Two kinds never share a name.
pub proof fn lemma_kind_name_injective(a: EnumJsonType, b: EnumJsonType)
    ensures
        kind_name(a) == kind_name(b) ==> a == b,
{
    reveal_strlit("array");
    reveal_strlit("boolean");
    reveal_strlit("integer");
    reveal_strlit("null");
    reveal_strlit("number");
    reveal_strlit("object");
    reveal_strlit("string");
    if kind_name(a) == kind_name(b) && a != b {
        // names of different kinds differ in length or in their first character
        assert(kind_name(a).len() != kind_name(b).len() || kind_name(a)[0] != kind_name(b)[0]
            || kind_name(a)[1] != kind_name(b)[1]);
    }
}

/// Reading back the name of a kind gives that kind.
pub proof fn lemma_name_round_trip(t: EnumJsonType)
    ensures
        kind_from_name(kind_name(t)) == Some(t),
{
    assert(exists|u: EnumJsonType| kind_name(u) == kind_name(t));
    let u = choose|u: EnumJsonType| kind_name(u) == kind_name(t);
    lemma_kind_name_injective(u, t);
}

/// Every kind's name reads back as that kind, and text that is no kind's
/// name reads as nothing.
pub proof fn lemma_names(t: EnumJsonType, s: Seq<char>)
    ensures
        kind_from_name(kind_name(t)) == Some(t),
        (forall|u: EnumJsonType| kind_name(u) != s) ==> kind_from_name(s) is None,
{
    lemma_name_round_trip(t);
}

impl EnumJsonType {
    /// The kind named by `type_string`; `None` for any text that is not one
    /// of the seven canonical names (the match is exact and case-sensitive).
    pub fn from_type(type_string: &str) -> (r: Option<Self>)
        ensures
            r == kind_from_name(type_string@),
    {
        let candidates: [EnumJsonType; 7] = [
            EnumJsonType::Array,
            EnumJsonType::Boolean,
            EnumJsonType::Integer,
            EnumJsonType::Null,
            EnumJsonType::Number,
            EnumJsonType::Object,
            EnumJsonType::String,
        ];
        let mut i: usize = 0;
        while i < 7
            invariant
                0 <= i <= 7,
                candidates@ == seq![
                    EnumJsonType::Array,
                    EnumJsonType::Boolean,
                    EnumJsonType::Integer,
                    EnumJsonType::Null,
                    EnumJsonType::Number,
                    EnumJsonType::Object,
                    EnumJsonType::String,
                ],
                forall|j: int| 0 <= j < i ==> kind_name(#[trigger] candidates@[j]) != type_string@,
            decreases 7 - i,
        {
            let t = candidates[i];
            if str_equal(t.to_type(), type_string) {
                proof {
                    lemma_name_round_trip(t);
                }
                return Some(t);
            }
            i = i + 1;
        }
        proof {
            if exists|u: EnumJsonType| kind_name(u) == type_string@ {
                let u = choose|u: EnumJsonType| kind_name(u) == type_string@;
                match u {
                    EnumJsonType::Array => assert(candidates@[0] == u),
                    EnumJsonType::Boolean => assert(candidates@[1] == u),
                    EnumJsonType::Integer => assert(candidates@[2] == u),
                    EnumJsonType::Null => assert(candidates@[3] == u),
                    EnumJsonType::Number => assert(candidates@[4] == u),
                    EnumJsonType::Object => assert(candidates@[5] == u),
                    EnumJsonType::String => assert(candidates@[6] == u),
                }
            }
        }
        None
    }

    /// The canonical lower-case name of this kind.
    pub fn to_type(&self) -> (r: &'static str)
        ensures
            r@ == kind_name(*self),
    {
        proof {
            reveal_strlit("array");
            reveal_strlit("boolean");
            reveal_strlit("integer");
            reveal_strlit("null");
            reveal_strlit("number");
            reveal_strlit("object");
            reveal_strlit("string");
        }
        match self {
            EnumJsonType::Array => "array",
            EnumJsonType::Boolean => "boolean",
            EnumJsonType::Integer => "integer",
            EnumJsonType::Null => "null",
            EnumJsonType::Number => "number",
            EnumJsonType::Object => "object",
            EnumJsonType::String => "string",
        }
    }
}

/// Character-by-character equality of two strings.
pub fn str_equal(a: &str, b: &str) -> (r: bool)
    ensures
        r == (a@ == b@),
{
    let n = a.unicode_len();
    if n != b.unicode_len() {
        return false;
    }
    let mut i: usize = 0;
    while i < n
        invariant
            n == a@.len(),
            n == b@.len(),
            0 <= i <= n,
            forall|j: int| 0 <= j < i ==> a@[j] == b@[j],
        decreases n - i,
    {
        if a.get_char(i) != b.get_char(i) {
            return false;
        }
        i = i + 1;
    }
    assert(a@ =~= b@);
    true
}

/// The predicate of kind `t` holds for `v`.
pub open spec fn holds_kind<T: JsonType>(t: EnumJsonType, v: T) -> bool {
    match t {
        EnumJsonType::Array => v.spec_as_array() is Some,
        EnumJsonType::Boolean => v.spec_as_boolean() is Some,
        EnumJsonType::Integer => v.spec_as_integer() is Some,
        EnumJsonType::Null => v.spec_is_null(),
        EnumJsonType::Number => v.spec_as_number() is Some,
        EnumJsonType::Object => v.spec_is_object(),
        EnumJsonType::String => v.spec_as_string() is Some,
    }
}

/// Classification always names a kind whose predicate holds, and no
/// predicate of an earlier kind in the priority order holds.
pub proof fn lemma_kind_holds<T: JsonType>(v: T)
    ensures
        holds_kind(kind_of(v), v),
        forall|t: EnumJsonType| #[trigger] holds_kind(t, v) ==> kind_rank(kind_of(v)) <= kind_rank(t),
{
    v.lemma_has_kind();
}

/// Position of a kind in the classification order.
pub open spec fn kind_rank(t: EnumJsonType) -> nat {
    match t {
        EnumJsonType::Array => 0,
        EnumJsonType::Boolean => 1,
        EnumJsonType::Integer => 2,
        EnumJsonType::Null => 3,
        EnumJsonType::Number => 4,
        EnumJsonType::Object => 5,
        EnumJsonType::String => 6,
    }
}

/// The first kind, in the order array, boolean, integer, null, number,
/// object, string, whose accessor answers for `v`.
pub open spec fn kind_of<T: JsonType>(v: T) -> EnumJsonType {
    if v.spec_as_array() is Some {
        EnumJsonType::Array
    } else if v.spec_as_boolean() is Some {
        EnumJsonType::Boolean
    } else if v.spec_as_integer() is Some {
        EnumJsonType::Integer
    } else if v.spec_is_null() {
        EnumJsonType::Null
    } else if v.spec_as_number() is Some {
        EnumJsonType::Number
    } else if v.spec_is_object() {
        EnumJsonType::Object
    } else {
        EnumJsonType::String
    }
}

/// The values that a sequence of references points to.
pub open spec fn deref_all<T>(s: Seq<&T>) -> Seq<T> {
    s.map_values(|x: &T| *x)
}

/// The value that an optional reference points to.
pub open spec fn deref_opt<T>(o: Option<&T>) -> Option<T> {
    match o {
        Some(x) => Some(*x),
        None => None,
    }
}

/// The capabilities of a JSON-like value: a handful of primitive accessors,
/// each described by a spec function, and the predicates, classification and
/// attribute test derived from them.
pub trait JsonType: Sized {
    spec fn spec_as_array(&self) -> Option<Seq<Self>>;

    spec fn spec_as_boolean(&self) -> Option<bool>;

    /// The integer value, for a number whose fractional part is zero.
    spec fn spec_as_integer(&self) -> Option<int>;

    spec fn spec_is_null(&self) -> bool;

    spec fn spec_as_number(&self) -> Option<Number>;

    spec fn spec_is_object(&self) -> bool;

    spec fn spec_as_string(&self) -> Option<Seq<char>>;

    /// The value bound to `name`, absent both for a missing key and for a
    /// key bound to null.
    spec fn spec_get_attribute(&self, name: Seq<char>) -> Option<Self>;

    /// The element at `index`, absent both out of bounds and for a null
    /// element.
    spec fn spec_get_index(&self, index: int) -> Option<Self>;

    /// Every value answers to at least one primitive accessor.
    proof fn lemma_has_kind(&self)
        ensures
            self.spec_as_array() is Some || self.spec_as_boolean() is Some
                || self.spec_as_integer() is Some || self.spec_is_null()
                || self.spec_as_number() is Some || self.spec_is_object()
                || self.spec_as_string() is Some,
    ;

    /// The integer accessor answers only for numbers.
    proof fn lemma_integer_is_number(&self)
        ensures
            self.spec_as_integer() is Some ==> self.spec_as_number() is Some,
    ;

    fn as_array(&self) -> (r: Option<Vec<&Self>>)
        ensures
            r is Some == self.spec_as_array() is Some,
            r is Some ==> deref_all(r->0@) == self.spec_as_array()->0,
    ;

    fn as_boolean(&self) -> (r: Option<bool>)
        ensures
            r == self.spec_as_boolean(),
    ;

    fn as_integer(&self) -> (r: Option<i128>)
        ensures
            r is Some == self.spec_as_integer() is Some,
            r is Some ==> r->0 as int == self.spec_as_integer()->0,
    ;

    fn as_null(&self) -> (r: Option<()>)
        ensures
            r is Some == self.spec_is_null(),
    ;

    fn as_number(&self) -> (r: Option<Number>)
        ensures
            r == self.spec_as_number(),
    ;

    fn as_object(&self) -> (r: Option<JsonMap<'_, Self>>)
        ensures
            r is Some == self.spec_is_object(),
            r is Some ==> *(r->0).0 == *self,
    ;

    fn as_string(&self) -> (r: Option<&str>)
        ensures
            r is Some == self.spec_as_string() is Some,
            r is Some ==> r->0@ == self.spec_as_string()->0,
    ;

    fn get_attribute(&self, attribute_name: &str) -> (r: Option<&Self>)
        ensures
            deref_opt(r) == self.spec_get_attribute(attribute_name@),
    ;

    fn get_index(&self, index: usize) -> (r: Option<&Self>)
        ensures
            deref_opt(r) == self.spec_get_index(index as int),
    ;

    fn is_array(&self) -> (r: bool)
        ensures
            r == self.spec_as_array() is Some,
    {
        self.as_array().is_some()
    }

    fn is_boolean(&self) -> (r: bool)
        ensures
            r == self.spec_as_boolean() is Some,
    {
        self.as_boolean().is_some()
    }

    fn is_integer(&self) -> (r: bool)
        ensures
            r == self.spec_as_integer() is Some,
    {
        self.as_integer().is_some()
    }

    fn is_null(&self) -> (r: bool)
        ensures
            r == self.spec_is_null(),
    {
        self.as_null().is_some()
    }

    fn is_number(&self) -> (r: bool)
        ensures
            r == self.spec_as_number() is Some,
    {
        self.as_number().is_some()
    }

    fn is_object(&self) -> (r: bool)
        ensures
            r == self.spec_is_object(),
    {
        self.as_object().is_some()
    }

    fn is_string(&self) -> (r: bool)
        ensures
            r == self.spec_as_string() is Some,
    {
        self.as_string().is_some()
    }

    fn has_attribute(&self, attribute_name: &str) -> (r: bool)
        ensures
            r == self.spec_get_attribute(attribute_name@) is Some,
    {
        self.get_attribute(attribute_name).is_some()
    }

    /// The kind of this value: the first predicate that holds, in the order
    /// array, boolean, integer, null, number, object, string.
    ///
    /// The order is written out rather than given as `kind_of`: a contract
    /// inside this trait cannot call a spec function bounded by the trait.
    fn primitive_type(&self) -> (r: EnumJsonType)
        ensures
            r == (if self.spec_as_array() is Some {
                EnumJsonType::Array
            } else if self.spec_as_boolean() is Some {
                EnumJsonType::Boolean
            } else if self.spec_as_integer() is Some {
                EnumJsonType::Integer
            } else if self.spec_is_null() {
                EnumJsonType::Null
            } else if self.spec_as_number() is Some {
                EnumJsonType::Number
            } else if self.spec_is_object() {
                EnumJsonType::Object
            } else {
                EnumJsonType::String
            }),
    {
        if self.is_array() {
            EnumJsonType::Array
        } else if self.is_boolean() {
            EnumJsonType::Boolean
        } else if self.is_integer() {
            EnumJsonType::Integer
        } else if self.is_null() {
            EnumJsonType::Null
        } else if self.is_number() {
            EnumJsonType::Number
        } else if self.is_object() {
            EnumJsonType::Object
        } else {
            proof {
                self.lemma_has_kind();
            }
            assert(self.spec_as_string() is Some);
            EnumJsonType::String
        }
    }
}

/// A value type whose values may be shared between threads.
pub trait ThreadSafeJsonType: JsonType + Sync + Send {

}

/// A read-only view of a value that is an object.
#[derive(Debug)]
pub struct JsonMap<'json, T>(pub &'json T);

impl<'json, T> JsonMap<'json, T> {
    /// A view over `object`; whether it is an object is not checked here.
    pub fn new(object: &'json T) -> (r: Self)
        ensures
            *r.0 == *object,
    {
        JsonMap(object)
    }

    /// The value this view reads.
    pub fn deref(&self) -> (r: &T)
        ensures
            *r == *self.0,
    {
        self.0
    }
}

/// Entries handed out by reference, as keys and values.
pub open spec fn items_view<T>(s: Seq<(&str, &T)>) -> Seq<(Seq<char>, T)> {
    s.map_values(|p: (&str, &T)| (p.0@, *p.1))
}

/// Key/value access to an object, in the order its storage presents; keys
/// and values are projections of the items, so the three always agree.
pub trait JsonMapTrait<'json, T: 'json> {
    /// The entries of the object, in order.
    spec fn spec_items(&self) -> Seq<(Seq<char>, T)>;

    fn items(&'json self) -> (r: Vec<(&'json str, &'json T)>)
        ensures
            items_view(r@) == self.spec_items(),
    ;

    fn keys(&'json self) -> (r: Vec<&'json str>)
        ensures
            r@.len() == self.spec_items().len(),
            forall|i: int| 0 <= i < r@.len() ==> (#[trigger] r@[i])@ == self.spec_items()[i].0,
    {
        let items = self.items();
        let mut out: Vec<&'json str> = Vec::new();
        let mut i: usize = 0;
        while i < items.len()
            invariant
                items_view(items@) == self.spec_items(),
                0 <= i <= items@.len(),
                out@.len() == i,
                forall|j: int| 0 <= j < i ==> (#[trigger] out@[j])@ == self.spec_items()[j].0,
            decreases items@.len() - i,
        {
            out.push(items[i].0);
            i = i + 1;
        }
        out
    }

    fn values(&'json self) -> (r: Vec<&'json T>)
        ensures
            r@.len() == self.spec_items().len(),
            forall|i: int| 0 <= i < r@.len() ==> *(#[trigger] r@[i]) == self.spec_items()[i].1,
    {
        let items = self.items();
        let mut out: Vec<&'json T> = Vec::new();
        let mut i: usize = 0;
        while i < items.len()
            invariant
                items_view(items@) == self.spec_items(),
                0 <= i <= items@.len(),
                out@.len() == i,
                forall|j: int| 0 <= j < i ==> *(#[trigger] out@[j]) == self.spec_items()[j].1,
            decreases items@.len() - i,
        {
            out.push(items[i].1);
            i = i + 1;
        }
        out
    }
}

/// One step of a path walk: an object descends by key, an array by the
/// decimal position the component writes, anything else stops.
pub open spec fn step<T: JsonType>(v: T, component: Seq<char>) -> Option<T> {
    match kind_of(v) {
        EnumJsonType::Object => v.spec_get_attribute(component),
        EnumJsonType::Array => match parse_index(component) {
            Some(i) => v.spec_get_index(i as int),
            None => None,
        },
        _ => None,
    }
}

/// The value reached from `v` by the components in order, if every step
/// finds one.
pub open spec fn resolve<T: JsonType>(v: T, components: Seq<Seq<char>>) -> Option<T>
    decreases components.len(),
{
    if components.len() == 0 {
        Some(v)
    } else {
        match step(v, components[0]) {
            Some(next) => resolve(next, components.drop_first()),
            None => None,
        }
    }
}

/// The value that `fragment` (`""`, or `/`-separated components) names
/// inside `json_object`; `None` as soon as a step finds nothing.
pub fn get_fragment<'json, T: JsonType>(json_object: &'json T, fragment: &str) -> (r: Option<&'json T>)
    ensures
        deref_opt(r) == resolve(*json_object, components_of(fragment@)),
{
    let parts = fragment_components(fragment);
    let ghost comps = components_of(fragment@);
    let mut result: Option<&T> = Some(json_object);
    let mut i: usize = 0;
    assert(comps.skip(0) =~= comps);
    while i < parts.len()
        invariant
            parts@.map_values(|c: &str| c@) == comps,
            0 <= i <= parts@.len(),
            result is Some ==> resolve(*json_object, comps) == resolve(*result->0, comps.skip(i as int)),
            result is None ==> resolve(*json_object, comps) is None,
        decreases parts@.len() - i,
    {
        if let Some(value) = result {
            let part = parts[i];
            assert(comps.skip(i as int)[0] == part@);
            assert(comps.skip(i as int).drop_first() =~= comps.skip(i + 1));
            result = match value.primitive_type() {
                EnumJsonType::Object => value.get_attribute(part),
                EnumJsonType::Array => match parse_index_of(part) {
                    Some(index) => value.get_index(index),
                    None => None,
                },
                _ => None,
            };
        }
        i = i + 1;
    }
    assert(comps.skip(i as int) =~= Seq::<Seq<char>>::empty());
    result
}

} // verus!
