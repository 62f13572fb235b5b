use json_trait::{
    fragment_components, get_fragment, parse_index_of, EnumJsonType, JsonMap, JsonMapTrait,
    JsonType, Number, Value,
};

fn num(positive: bool, mantissa: u64, exponent: i16) -> Value {
    Value::Number(Number { positive, mantissa, exponent, nan: false })
}

fn whole(n: u64) -> Value {
    num(true, n, 0)
}

fn s(text: &str) -> Value {
    Value::String(text.to_string())
}

fn obj(entries: Vec<(&str, Value)>) -> Value {
    Value::Object(entries.into_iter().map(|(k, v)| (k.to_string(), v)).collect())
}

fn testing_map() -> Value {
    obj(vec![("k1", s("v1")), ("k2", s("v2"))])
}

fn fragment_root() -> Value {
    obj(vec![("key", obj(vec![("inner_key", Value::Array(vec![whole(1), s("2")]))]))])
}

fn samples() -> Vec<(Value, EnumJsonType)> {
    vec![
        (Value::Array(vec![whole(0), whole(1), whole(2)]), EnumJsonType::Array),
        (Value::Boolean(true), EnumJsonType::Boolean),
        (whole(1), EnumJsonType::Integer),
        (Value::Null, EnumJsonType::Null),
        (num(true, 12, -1), EnumJsonType::Number),
        (obj(vec![("key", s("value"))]), EnumJsonType::Object),
        (s("string"), EnumJsonType::String),
    ]
}

#[test]
fn keys() {
    let map = testing_map();
    assert_eq!(JsonMap::new(&map).keys(), vec!["k1", "k2"]);
}

#[test]
fn values() {
    let map = testing_map();
    assert_eq!(JsonMap::new(&map).values(), vec![&s("v1"), &s("v2")]);
}

#[test]
fn items() {
    let map = testing_map();
    assert_eq!(JsonMap::new(&map).items(), vec![("k1", &s("v1")), ("k2", &s("v2"))]);
}

#[test]
fn map_view_calls_repeat_and_agree() {
    let map = testing_map();
    let view = JsonMap::new(&map);
    assert_eq!(view.items(), view.items());
    assert_eq!(view.keys(), view.keys());
    let items = view.items();
    let keys = view.keys();
    let values = view.values();
    assert_eq!(items.len(), keys.len());
    assert_eq!(items.len(), values.len());
    for i in 0..items.len() {
        assert_eq!(items[i].0, keys[i]);
        assert_eq!(items[i].1, values[i]);
    }
}

#[test]
fn map_view_over_non_object_is_empty() {
    let v = whole(3);
    assert!(JsonMap::new(&v).items().is_empty());
    assert!(JsonMap::new(&v).keys().is_empty());
}

#[test]
fn test_enum_primitive_type_from_type() {
    assert_eq!(EnumJsonType::from_type("array"), Some(EnumJsonType::Array));
    assert_eq!(EnumJsonType::from_type("boolean"), Some(EnumJsonType::Boolean));
    assert_eq!(EnumJsonType::from_type("integer"), Some(EnumJsonType::Integer));
    assert_eq!(EnumJsonType::from_type("number"), Some(EnumJsonType::Number));
    assert_eq!(EnumJsonType::from_type("null"), Some(EnumJsonType::Null));
    assert_eq!(EnumJsonType::from_type("object"), Some(EnumJsonType::Object));
    assert_eq!(EnumJsonType::from_type("string"), Some(EnumJsonType::String));
    assert_eq!(EnumJsonType::from_type("an invalid type"), None);
    assert_eq!(EnumJsonType::from_type("Array"), None);
    assert_eq!(EnumJsonType::from_type(""), None);
}

#[test]
fn test_enum_primitive_type_to_type() {
    assert_eq!(EnumJsonType::Array.to_type(), "array");
    assert_eq!(EnumJsonType::Boolean.to_type(), "boolean");
    assert_eq!(EnumJsonType::Integer.to_type(), "integer");
    assert_eq!(EnumJsonType::Number.to_type(), "number");
    assert_eq!(EnumJsonType::Null.to_type(), "null");
    assert_eq!(EnumJsonType::Object.to_type(), "object");
    assert_eq!(EnumJsonType::String.to_type(), "string");
}

#[test]
fn name_round_trip_for_every_kind() {
    for (_, kind) in samples() {
        assert_eq!(EnumJsonType::from_type(kind.to_type()), Some(kind));
    }
}

#[test]
fn test_get_fragment() {
    let root = fragment_root();
    assert_eq!(get_fragment(&root, ""), Some(&fragment_root()));
    assert_eq!(
        get_fragment(&root, "/key"),
        Some(&obj(vec![("inner_key", Value::Array(vec![whole(1), s("2")]))]))
    );
    assert_eq!(get_fragment(&root, "/key/inner_key"), Some(&Value::Array(vec![whole(1), s("2")])));
    assert_eq!(get_fragment(&root, "/key/inner_key/0"), Some(&whole(1)));
    assert_eq!(get_fragment(&root, "/key/inner_key/1"), Some(&s("2")));
    assert_eq!(get_fragment(&root, "/not_present"), None);
    assert_eq!(get_fragment(&root, "/key/inner_key/a"), None);
    assert_eq!(get_fragment(&root, "/key/inner_key/2"), None);
}

#[test]
fn fragment_root_forms_and_scalars() {
    let root = fragment_root();
    assert_eq!(get_fragment(&root, "/"), Some(&fragment_root()));
    assert_eq!(get_fragment(&root, "/key/inner_key/0/deeper"), None);
    assert_eq!(get_fragment(&root, "/key/inner_key/+1"), Some(&s("2")));
    assert_eq!(get_fragment(&Value::Array(vec![whole(1)]), "/+0"), Some(&whole(1)));
    assert_eq!(get_fragment(&root, "/key/inner_key/-1"), None);
}

#[test]
fn fragment_components_split() {
    assert!(fragment_components("").is_empty());
    assert!(fragment_components("/").is_empty());
    assert_eq!(fragment_components("/a/b"), vec!["a", "b"]);
    assert_eq!(fragment_components("/a//b/"), vec!["a", "b"]);
    assert_eq!(fragment_components("/ключ/x"), vec!["ключ", "x"]);
}

#[test]
fn index_parsing() {
    assert_eq!(parse_index_of("0"), Some(0));
    assert_eq!(parse_index_of("42"), Some(42));
    assert_eq!(parse_index_of(""), None);
    assert_eq!(parse_index_of("a"), None);
    assert_eq!(parse_index_of("-1"), None);
    assert_eq!(parse_index_of("+5"), Some(5));
    assert_eq!(parse_index_of("+"), None);
    assert_eq!(parse_index_of("++5"), None);
    assert_eq!(parse_index_of("+-5"), None);
    assert_eq!(parse_index_of("18446744073709551615"), Some(usize::MAX));
    assert_eq!(parse_index_of("18446744073709551616"), None);
}

#[test]
fn test_primitive_type() {
    assert_eq!(Value::Array(vec![]).primitive_type(), EnumJsonType::Array);
    assert_eq!(Value::Boolean(true).primitive_type(), EnumJsonType::Boolean);
    assert_eq!(whole(1).primitive_type(), EnumJsonType::Integer);
    assert_eq!(Value::Null.primitive_type(), EnumJsonType::Null);
    assert_eq!(num(true, 12, -1).primitive_type(), EnumJsonType::Number);
    assert_eq!(obj(vec![("prop", s("value"))]).primitive_type(), EnumJsonType::Object);
    assert_eq!(s("string").primitive_type(), EnumJsonType::String);
}

#[test]
fn primitive_type_of_samples() {
    for (value, kind) in samples() {
        assert_eq!(value.primitive_type(), kind);
    }
}

#[test]
fn one_predicate_for_non_integers() {
    for (value, kind) in samples() {
        let flags = [
            value.is_array(),
            value.is_boolean(),
            value.is_integer(),
            value.is_null(),
            value.is_number(),
            value.is_object(),
            value.is_string(),
        ];
        let count = flags.iter().filter(|f| **f).count();
        if kind == EnumJsonType::Integer {
            assert_eq!(count, 2);
            assert!(value.is_number());
        } else {
            assert_eq!(count, 1);
        }
    }
}

#[test]
fn test_get_attribute() {
    let v = obj(vec![("present", whole(1))]);
    assert_eq!(v.get_attribute("present"), Some(&whole(1)));
    assert_eq!(v.get_attribute("not-present"), None);
}

#[test]
fn test_get_index() {
    let v = Value::Array(vec![whole(0), whole(1), whole(2)]);
    assert_eq!(v.get_index(1), Some(&whole(1)));
    assert_eq!(v.get_index(4), None);
}

#[test]
fn null_entries_read_as_absent() {
    let v = obj(vec![("nothing", Value::Null), ("one", whole(1))]);
    assert_eq!(v.get_attribute("nothing"), None);
    assert_eq!(v.get_attribute("missing"), None);
    assert!(!v.has_attribute("nothing"));
    let a = Value::Array(vec![Value::Null, whole(1)]);
    assert_eq!(a.get_index(0), None);
    assert_eq!(a.get_index(5), None);
    assert_eq!(a.get_index(1), Some(&whole(1)));
}

#[test]
fn test_has_attribute() {
    let v = obj(vec![("present", whole(1))]);
    assert!(v.has_attribute("present"));
    assert!(!v.has_attribute("not-present"));
    assert!(!Value::Array(vec![whole(1), whole(2), whole(3)]).has_attribute("not-present"));
}

#[test]
fn test_is_predicates() {
    let expected = [
        [true, false, false, false, false, false, false],
        [false, true, false, false, false, false, false],
        [false, false, true, false, true, false, false],
        [false, false, false, true, false, false, false],
        [false, false, false, false, true, false, false],
        [false, false, false, false, false, true, false],
        [false, false, false, false, false, false, true],
    ];
    for (i, (value, _)) in samples().into_iter().enumerate() {
        assert_eq!(value.is_array(), expected[i][0]);
        assert_eq!(value.is_boolean(), expected[i][1]);
        assert_eq!(value.is_integer(), expected[i][2]);
        assert_eq!(value.is_null(), expected[i][3]);
        assert_eq!(value.is_number(), expected[i][4]);
        assert_eq!(value.is_object(), expected[i][5]);
        assert_eq!(value.is_string(), expected[i][6]);
    }
}

#[test]
fn test_as_array() {
    let one = Value::Array(vec![whole(1)]);
    assert_eq!(one.as_array(), Some(vec![&whole(1)]));
    let two = Value::Array(vec![whole(1), s("a")]);
    assert_eq!(two.as_array(), Some(vec![&whole(1), &s("a")]));
    assert_eq!(Value::Null.as_array(), None);
}

#[test]
fn test_as_boolean() {
    assert_eq!(Value::Boolean(true).as_boolean(), Some(true));
    assert_eq!(Value::Boolean(false).as_boolean(), Some(false));
    assert_eq!(whole(1).as_boolean(), None);
}

#[test]
fn test_as_integer() {
    assert_eq!(whole(1).as_integer(), Some(1));
    assert_eq!(num(true, 12, -1).as_integer(), None);
    assert_eq!(s("1").as_integer(), None);
}

#[test]
fn integer_from_decimal_forms() {
    assert_eq!(num(true, 10, -1).as_integer(), Some(1));
    assert_eq!(num(false, 12, 1).as_integer(), Some(-120));
    assert_eq!(num(false, 0, -40).as_integer(), Some(0));
    assert_eq!(num(true, 5, -40).as_integer(), None);
    assert_eq!(num(true, 1, 39).as_integer(), None);
    assert_eq!(num(true, 1, 38).as_integer(), Some(100_000_000_000_000_000_000_000_000_000_000_000_000));
    assert_eq!(num(true, 17014118346046923174, 19).as_integer(), None);
    assert_eq!(
        num(true, 17014118346046923173, 19).as_integer(),
        Some(170_141_183_460_469_231_730_000_000_000_000_000_000)
    );
    let nan = Value::Number(Number { positive: false, mantissa: 0, exponent: 0, nan: true });
    assert_eq!(nan.as_integer(), None);
    assert!(nan.is_number());
    assert_eq!(nan.primitive_type(), EnumJsonType::Number);
}

#[test]
fn integer_bounds_of_i128() {
    // 170141183460469231731687303715884105728 is 2^127
    let below_min = Number { positive: false, mantissa: 17014118346046923174, exponent: 19, nan: false };
    let above_max = Number { positive: true, ..below_min };
    assert_eq!(below_min.as_integer(), None);
    assert_eq!(above_max.as_integer(), None);
    let near_min = Number { mantissa: 17014118346046923173, ..below_min };
    assert_eq!(near_min.as_integer(), Some(-170_141_183_460_469_231_730_000_000_000_000_000_000));
    let big = Number { positive: false, mantissa: 1_000_000_000_000_000_000, exponent: 19, nan: false };
    assert_eq!(big.as_integer(), Some(-10_000_000_000_000_000_000_000_000_000_000_000_000));
}

#[test]
fn test_as_null() {
    assert_eq!(Value::Null.as_null(), Some(()));
    assert_eq!(s("1").as_null(), None);
}

#[test]
fn test_as_number() {
    assert_eq!(whole(1).as_number(), Some(Number { positive: true, mantissa: 1, exponent: 0, nan: false }));
    assert_eq!(num(true, 12, -1).as_number(), Some(Number { positive: true, mantissa: 12, exponent: -1, nan: false }));
    assert_eq!(s("1").as_number(), None);
}

#[test]
fn test_as_object() {
    assert!(whole(1).as_object().is_none());
    assert!(num(true, 12, -1).as_object().is_none());
    let v = obj(vec![("1", whole(1))]);
    let view = v.as_object();
    assert!(view.is_some());
    assert_eq!(view.unwrap().deref(), &obj(vec![("1", whole(1))]));
}

#[test]
fn test_as_string() {
    assert_eq!(whole(1).as_string(), None);
    assert_eq!(num(true, 12, -1).as_string(), None);
    assert_eq!(s("1").as_string(), Some("1"));
}
