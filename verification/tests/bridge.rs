use fiasto_py::bridge::{convert, convert_number};
use fiasto_py::native::{insert_entry, NativeObject};
use fiasto_py::value::{GenericValue, Number};

fn whole(i: i64) -> GenericValue {
    GenericValue::Number(Number { int: Some(i), float: Some((i as f64).to_bits()), text: i.to_string() })
}

fn string(s: &str) -> GenericValue {
    GenericValue::String(s.to_string())
}

#[test]
fn null_becomes_the_no_value_object() {
    assert_eq!(convert(&GenericValue::Null), NativeObject::Null);
}

#[test]
fn booleans_keep_their_value() {
    assert_eq!(convert(&GenericValue::Boolean(true)), NativeObject::Bool(true));
    assert_eq!(convert(&GenericValue::Boolean(false)), NativeObject::Bool(false));
}

#[test]
fn string_is_copied_byte_for_byte() {
    let s = "héllo \u{1F600} ~ x";
    assert_eq!(convert(&string(s)), NativeObject::Str(s.to_string()));
}

#[test]
fn largest_i64_becomes_an_integer() {
    let n = Number {
        int: Some(9223372036854775807),
        float: Some((9223372036854775807i64 as f64).to_bits()),
        text: "9223372036854775807".to_string(),
    };
    assert_eq!(convert_number(&n), NativeObject::Int(9223372036854775807));
    assert_eq!(convert(&GenericValue::Number(n)), NativeObject::Int(i64::MAX));
}

#[test]
fn number_beyond_i64_becomes_a_float() {
    let f = 18446744073709551615u64 as f64;
    let n = Number { int: None, float: Some(f.to_bits()), text: "18446744073709551615".to_string() };
    let native = convert(&GenericValue::Number(n));
    assert_eq!(native, NativeObject::Float(f.to_bits()));
    match native {
        NativeObject::Float(bits) => assert_eq!(f64::from_bits(bits), 18446744073709551615.0),
        _ => panic!("not a float"),
    }
}

#[test]
fn fraction_becomes_a_float() {
    let n = Number { int: None, float: Some(2.5f64.to_bits()), text: "2.5".to_string() };
    assert_eq!(convert_number(&n), NativeObject::Float(2.5f64.to_bits()));
}

#[test]
fn number_beyond_both_becomes_its_text() {
    let n = Number { int: None, float: None, text: "123456789012345678901234567890".to_string() };
    assert_eq!(
        convert(&GenericValue::Number(n)),
        NativeObject::Str("123456789012345678901234567890".to_string())
    );
}

#[test]
fn integer_wins_over_float_and_text() {
    let n = Number { int: Some(-7), float: Some((-7.0f64).to_bits()), text: "-7".to_string() };
    assert_eq!(convert_number(&n), NativeObject::Int(-7));
}

#[test]
fn array_keeps_length_and_order() {
    let v = GenericValue::Array(vec![whole(3), string("a"), GenericValue::Null, whole(1), GenericValue::Boolean(true)]);
    assert_eq!(
        convert(&v),
        NativeObject::List(vec![
            NativeObject::Int(3),
            NativeObject::Str("a".to_string()),
            NativeObject::Null,
            NativeObject::Int(1),
            NativeObject::Bool(true),
        ])
    );
}

#[test]
fn empty_array_becomes_an_empty_list() {
    let native = convert(&GenericValue::Array(vec![]));
    assert_eq!(native, NativeObject::List(vec![]));
    assert_ne!(native, NativeObject::Null);
}

#[test]
fn empty_object_becomes_an_empty_mapping() {
    let native = convert(&GenericValue::Object(vec![]));
    assert_eq!(native, NativeObject::Dict(vec![]));
    assert_ne!(native, NativeObject::Null);
}

#[test]
fn object_keeps_insertion_order() {
    let v = GenericValue::Object(vec![
        ("zeta".to_string(), whole(1)),
        ("alpha".to_string(), whole(2)),
        ("mid".to_string(), string("m")),
    ]);
    assert_eq!(
        convert(&v),
        NativeObject::Dict(vec![
            ("zeta".to_string(), NativeObject::Int(1)),
            ("alpha".to_string(), NativeObject::Int(2)),
            ("mid".to_string(), NativeObject::Str("m".to_string())),
        ])
    );
}

#[test]
fn nested_tree_keeps_its_shape() {
    let v = GenericValue::Object(vec![
        ("columns".to_string(), GenericValue::Array(vec![
            GenericValue::Object(vec![("id".to_string(), whole(1)), ("roles".to_string(), GenericValue::Array(vec![string("Response")]))]),
            GenericValue::Array(vec![GenericValue::Array(vec![])]),
        ])),
        ("family".to_string(), GenericValue::Null),
    ]);
    let expected = NativeObject::Dict(vec![
        ("columns".to_string(), NativeObject::List(vec![
            NativeObject::Dict(vec![
                ("id".to_string(), NativeObject::Int(1)),
                ("roles".to_string(), NativeObject::List(vec![NativeObject::Str("Response".to_string())])),
            ]),
            NativeObject::List(vec![NativeObject::List(vec![])]),
        ])),
        ("family".to_string(), NativeObject::Null),
    ]);
    assert_eq!(convert(&v), expected);
}

#[test]
fn repeated_key_keeps_first_place_and_last_value() {
    let v = GenericValue::Object(vec![
        ("a".to_string(), whole(1)),
        ("b".to_string(), whole(2)),
        ("a".to_string(), whole(3)),
    ]);
    assert_eq!(
        convert(&v),
        NativeObject::Dict(vec![
            ("a".to_string(), NativeObject::Int(3)),
            ("b".to_string(), NativeObject::Int(2)),
        ])
    );
}

#[test]
fn insert_entry_appends_a_new_key() {
    let mut entries = vec![("a".to_string(), NativeObject::Int(1))];
    insert_entry(&mut entries, "b".to_string(), NativeObject::Bool(true));
    assert_eq!(
        entries,
        vec![("a".to_string(), NativeObject::Int(1)), ("b".to_string(), NativeObject::Bool(true))]
    );
}

#[test]
fn insert_entry_replaces_in_place() {
    let mut entries = vec![
        ("a".to_string(), NativeObject::Int(1)),
        ("b".to_string(), NativeObject::Int(2)),
        ("c".to_string(), NativeObject::Int(3)),
    ];
    insert_entry(&mut entries, "b".to_string(), NativeObject::Null);
    assert_eq!(
        entries,
        vec![
            ("a".to_string(), NativeObject::Int(1)),
            ("b".to_string(), NativeObject::Null),
            ("c".to_string(), NativeObject::Int(3)),
        ]
    );
}

#[test]
fn insert_entry_into_empty_mapping() {
    let mut entries: Vec<(String, NativeObject)> = Vec::new();
    insert_entry(&mut entries, "".to_string(), NativeObject::Null);
    assert_eq!(entries, vec![("".to_string(), NativeObject::Null)]);
}

#[test]
fn results_of_two_calls_share_nothing() {
    let v = GenericValue::Object(vec![("k".to_string(), GenericValue::Array(vec![whole(1), whole(2)]))]);
    let mut first = convert(&v);
    if let NativeObject::Dict(entries) = &mut first {
        entries.clear();
        entries.push(("other".to_string(), NativeObject::Null));
    }
    let second = convert(&v);
    assert_eq!(
        second,
        NativeObject::Dict(vec![(
            "k".to_string(),
            NativeObject::List(vec![NativeObject::Int(1), NativeObject::Int(2)])
        )])
    );
    assert_ne!(first, second);
    assert_eq!(v, GenericValue::Object(vec![("k".to_string(), GenericValue::Array(vec![whole(1), whole(2)]))]));
}

#[test]
fn infinite_float_becomes_its_text() {
    let n = Number { int: None, float: Some(f64::INFINITY.to_bits()), text: "1e400".to_string() };
    assert_eq!(convert_number(&n), NativeObject::Str("1e400".to_string()));
    let n = Number { int: None, float: Some(f64::NEG_INFINITY.to_bits()), text: "-1e400".to_string() };
    assert_eq!(convert(&GenericValue::Number(n)), NativeObject::Str("-1e400".to_string()));
}

#[test]
fn nan_becomes_its_text() {
    let n = Number { int: None, float: Some(f64::NAN.to_bits()), text: "nan".to_string() };
    assert_eq!(convert_number(&n), NativeObject::Str("nan".to_string()));
    let n = Number { int: None, float: Some(0x7ff0_0000_0000_0001), text: "x".to_string() };
    assert_eq!(convert_number(&n), NativeObject::Str("x".to_string()));
}

#[test]
fn extreme_finite_floats_stay_floats() {
    for f in [f64::MAX, f64::MIN, f64::MIN_POSITIVE, 0.0, -0.0, 5e-324] {
        let n = Number { int: None, float: Some(f.to_bits()), text: "t".to_string() };
        assert_eq!(convert_number(&n), NativeObject::Float(f.to_bits()));
    }
}

#[test]
fn integer_wins_over_a_float_that_is_not_finite() {
    let n = Number { int: Some(4), float: Some(f64::INFINITY.to_bits()), text: "4".to_string() };
    assert_eq!(convert_number(&n), NativeObject::Int(4));
}
