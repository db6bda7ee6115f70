use rust_actions::value::Sealed;
use rust_actions::{Value, ValueType};
use std::cmp::Ordering;

fn sealed<T: Sealed>(_: T) -> bool {
    true
}

#[test]
fn value_type_display_test() {
    assert_eq!(ValueType::Nil.to_string(), "null");
    assert_eq!(ValueType::Int.to_string(), "integer");
    assert_eq!(ValueType::String.to_string(), "string");
}

#[test]
fn value_type_names_of_every_type() {
    assert_eq!(ValueType::Number.to_string(), "number");
    assert_eq!(ValueType::Vec.to_string(), "vector");
}

#[test]
fn as_type_of_each_variant() {
    assert_eq!(Value::String(String::from("a")).as_type(), ValueType::String);
    assert_eq!(Value::Number(1.5f64.to_bits()).as_type(), ValueType::Number);
    assert_eq!(Value::Int(-4).as_type(), ValueType::Int);
    assert_eq!(Value::Vec(vec![]).as_type(), ValueType::Vec);
    assert_eq!(Value::Nil.as_type(), ValueType::Nil);
    assert_eq!(Value::default().as_type(), ValueType::Nil);
}

#[test]
fn conversions_into_values() {
    assert!(matches!(Value::from("abc"), Value::String(s) if s == "abc"));
    assert!(matches!(Value::from(String::from("x")), Value::String(s) if s == "x"));
    assert!(matches!(Value::from(7i64), Value::Int(7)));
    assert!(matches!(Value::from(-7i32), Value::Int(-7)));
    assert!(matches!(Value::from(u32::MAX), Value::Int(4294967295)));
    assert!(matches!(Value::from(vec![Value::Nil]), Value::Vec(v) if v.len() == 1));
}

#[test]
fn conversions_out_of_values_round_trip() {
    assert_eq!(String::try_from(Value::from("abc")), Ok(String::from("abc")));
    assert_eq!(i64::try_from(Value::from(42i64)), Ok(42));
    assert_eq!(<()>::try_from(Value::Nil), Ok(()));
    let v: Vec<Value> = Vec::try_from(Value::from(vec![Value::Int(1), Value::Nil])).unwrap();
    assert_eq!(v.len(), 2);
    assert!(matches!(v[0], Value::Int(1)));
}

#[test]
fn conversion_errors_name_both_types() {
    assert_eq!(
        String::try_from(Value::Int(3)),
        Err(String::from("Invalid type expected string found integer"))
    );
    assert_eq!(
        i64::try_from(Value::Nil),
        Err(String::from("Invalid type expected integer found null"))
    );
    assert_eq!(
        Vec::<Value>::try_from(Value::from("s")).unwrap_err(),
        String::from("Invalid type expected vec found string")
    );
    assert_eq!(
        <()>::try_from(Value::Vec(vec![])),
        Err(String::from("Invalid type expected nil found vector"))
    );
    assert_eq!(
        i64::try_from(Value::Number(0)),
        Err(String::from("Invalid type expected integer found number"))
    );
}

#[test]
fn comparing_with_strings() {
    let v = Value::from("hallo");
    assert!(v == "hallo");
    assert!(v != "hall");
    assert!(v != "hallo!");
    assert!(v == String::from("hallo"));
    assert!(Value::Int(1) != "1");
    assert!(Value::from("é") == "é");
    assert!(Value::from("") == "");
}

#[test]
fn comparing_with_integers() {
    assert!(sealed(3u32) && sealed(3i32) && sealed(3i64) && sealed(()));
    assert!(Value::Int(3) == 3i64);
    assert!(Value::Int(3) == 3i32);
    assert!(Value::Int(3) == 3u32);
    assert!(Value::Int(3) != 4i64);
    assert!(Value::from("3") != 3i64);
    assert!(Value::Int(-1) != u32::MAX);
}

#[test]
fn ordering_against_strings() {
    let v = Value::from("abc");
    assert_eq!(v.partial_cmp(&"abd"), Some(Ordering::Less));
    assert_eq!(v.partial_cmp(&"abc"), Some(Ordering::Equal));
    assert_eq!(v.partial_cmp(&"ab"), Some(Ordering::Greater));
    assert_eq!(v.partial_cmp(&String::from("b")), Some(Ordering::Less));
    assert_eq!(Value::from("é").partial_cmp(&"z"), Some(Ordering::Greater));
    assert_eq!(Value::Int(1).partial_cmp(&"a"), None);
    assert!(v < "b");
    assert!(v > String::from("ab"));
}

#[test]
fn clones_keep_content() {
    let v = Value::Vec(vec![
        Value::from("a"),
        Value::Number(2.5f64.to_bits()),
        Value::Vec(vec![Value::Int(9)]),
        Value::Nil,
    ]);
    let c = v.clone();
    match c {
        Value::Vec(items) => {
            assert_eq!(items.len(), 4);
            assert!(items[0] == "a");
            assert!(matches!(items[1], Value::Number(b) if f64::from_bits(b) == 2.5));
            assert!(matches!(&items[2], Value::Vec(inner) if inner.len() == 1 && inner[0] == 9i64));
            assert!(matches!(items[3], Value::Nil));
        }
        _ => panic!("clone changed the variant"),
    }
}

#[test]
fn display_text_of_scalar_values() {
    assert_eq!(Value::Nil.display_text(), Some(String::from("null")));
    assert_eq!(Value::Int(123).display_text(), Some(String::from("123")));
    assert_eq!(Value::String(String::from("oke")).display_text(), Some(String::from("\"oke\"")));
    assert_eq!(Value::Int(0).display_text(), Some(String::from("0")));
    assert_eq!(Value::Int(-45).display_text(), Some(String::from("-45")));
    assert_eq!(Value::Int(i64::MIN).display_text(), Some(i64::MIN.to_string()));
    assert_eq!(Value::Int(i64::MAX).display_text(), Some(i64::MAX.to_string()));
    assert_eq!(Value::Number(1.5f64.to_bits()).display_text(), None);
    assert_eq!(Value::Vec(vec![]).display_text(), None);
}

#[test]
fn decimal_matches_std_formatting() {
    for n in [0i64, 1, 9, 10, 99, 100, 12345, -1, -10, -987654321, i64::MIN, i64::MAX] {
        assert_eq!(rust_actions::display::decimal(n), n.to_string());
    }
}
