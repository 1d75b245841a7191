use omniverlay_core::errors::OmniverlayError;
use omniverlay_core::extensions::codec::{
    decode_extension_layout, decode_extension_state, decode_number, encode_extension_info,
    encode_extension_layout, encode_extension_state, encode_number, single_member, tag,
};
use omniverlay_core::extensions::performance::default_config;
use omniverlay_core::extensions::{ExtensionInfo, ExtensionLayout, ExtensionState};
use omniverlay_core::utils::json::{
    array, as_array, as_object, as_string, find_member, object, push_member, JsonNumber,
    JsonValue,
};

fn number(n: u64) -> JsonValue {
    JsonValue::Number(JsonNumber::from_unsigned(n))
}

fn member(name: &str, value: JsonValue) -> (String, JsonValue) {
    (name.to_string(), value)
}

fn same(a: &JsonValue, b: &JsonValue) -> bool {
    format!("{:?}", a) == format!("{:?}", b)
}

#[test]
fn the_three_readings_of_a_number() {
    assert_eq!(
        JsonNumber::from_signed(-3),
        JsonNumber { unsigned: None, signed: Some(-3), float_bits: None }
    );
    assert_eq!(
        JsonNumber::from_signed(3),
        JsonNumber { unsigned: Some(3), signed: Some(3), float_bits: None }
    );
    assert_eq!(
        JsonNumber::from_unsigned(u64::MAX),
        JsonNumber { unsigned: Some(u64::MAX), signed: None, float_bits: None }
    );
    assert_eq!(
        JsonNumber::from_unsigned(i64::MAX as u64),
        JsonNumber { unsigned: Some(i64::MAX as u64), signed: Some(i64::MAX), float_bits: None }
    );
    assert_eq!(
        JsonNumber::from_float_bits(0.5f64.to_bits()),
        JsonNumber { unsigned: None, signed: None, float_bits: Some(0.5f64.to_bits()) }
    );
}

#[test]
fn a_layout_as_json_and_back() {
    let layout = ExtensionLayout { width: 1, height: 2, x: 3, y: u32::MAX };
    let json = encode_extension_layout(&layout);
    let expected = JsonValue::Object(vec![
        member("width", number(1)),
        member("height", number(2)),
        member("x", number(3)),
        member("y", number(u32::MAX as u64)),
    ]);
    assert!(same(&json, &expected));
    assert_eq!(decode_extension_layout(&json).unwrap(), layout);
}

#[test]
fn a_layout_needs_its_four_numbers_within_32_bits() {
    let missing = JsonValue::Object(vec![
        member("width", number(1)),
        member("height", number(2)),
        member("x", number(3)),
    ]);
    assert!(matches!(decode_extension_layout(&missing), Err(OmniverlayError::SerdeJson(_))));
    let too_large = JsonValue::Object(vec![
        member("width", number(u32::MAX as u64 + 1)),
        member("height", number(2)),
        member("x", number(3)),
        member("y", number(4)),
    ]);
    assert!(decode_extension_layout(&too_large).is_err());
    let negative = JsonValue::Object(vec![
        member("width", JsonValue::Number(JsonNumber::from_signed(-1))),
        member("height", number(2)),
        member("x", number(3)),
        member("y", number(4)),
    ]);
    assert!(decode_extension_layout(&negative).is_err());
    assert!(decode_extension_layout(&JsonValue::Null).is_err());
    assert_eq!(decode_number(&encode_number(7)), Some(7));
    assert_eq!(decode_number(&JsonValue::Bool(true)), None);
    assert_eq!(decode_number(&number(u32::MAX as u64)), Some(u32::MAX));
    assert_eq!(decode_number(&number(u32::MAX as u64 + 1)), None);
}

#[test]
fn a_state_as_json_and_back() {
    let plain = ExtensionState { is_enabled: true, config: None };
    let json = encode_extension_state(&plain);
    let expected = JsonValue::Object(vec![
        member("is_enabled", JsonValue::Bool(true)),
        member("config", JsonValue::Null),
    ]);
    assert!(same(&json, &expected));
    let back = decode_extension_state(&json).unwrap();
    assert!(back.is_enabled);
    assert!(back.config.is_none());

    let configured = ExtensionState { is_enabled: false, config: Some(default_config()) };
    let back = decode_extension_state(&encode_extension_state(&configured)).unwrap();
    assert_eq!(format!("{:?}", back), format!("{:?}", configured));
}

#[test]
fn a_state_may_leave_its_config_out() {
    let json = JsonValue::Object(vec![member("is_enabled", JsonValue::Bool(false))]);
    let state = decode_extension_state(&json).unwrap();
    assert!(!state.is_enabled);
    assert!(state.config.is_none());
    let no_flag = JsonValue::Object(vec![member("config", JsonValue::Null)]);
    assert!(decode_extension_state(&no_flag).is_err());
    let bad_config = JsonValue::Object(vec![
        member("is_enabled", JsonValue::Bool(false)),
        member("config", JsonValue::Bool(false)),
    ]);
    assert!(decode_extension_state(&bad_config).is_err());
}

#[test]
fn a_record_as_json() {
    let info = ExtensionInfo {
        name: "Perf".to_string(),
        state: ExtensionState { is_enabled: true, config: None },
        layout: None,
    };
    let expected = JsonValue::Object(vec![
        member("name", JsonValue::String("Perf".to_string())),
        member(
            "state",
            JsonValue::Object(vec![
                member("is_enabled", JsonValue::Bool(true)),
                member("config", JsonValue::Null),
            ]),
        ),
        member("layout", JsonValue::Null),
    ]);
    assert!(same(&encode_extension_info(&info), &expected));
}

#[test]
fn the_single_member_of_an_object() {
    let tagged = tag("Int", number(3));
    let (name, body) = single_member(&tagged).unwrap();
    assert_eq!(name, "Int");
    assert!(same(body, &number(3)));
    // One name twice is one name; the last value counts.
    let twice = JsonValue::Object(vec![member("a", number(1)), member("a", number(2))]);
    let (name, body) = single_member(&twice).unwrap();
    assert_eq!(name, "a");
    assert!(same(body, &number(2)));
    let two = JsonValue::Object(vec![member("a", number(1)), member("b", number(2))]);
    assert!(single_member(&two).is_none());
    assert!(single_member(&JsonValue::Object(vec![])).is_none());
    assert!(single_member(&JsonValue::Array(vec![])).is_none());
}

#[test]
fn building_and_reading_json_values() {
    let mut members = Vec::new();
    push_member(&mut members, "a".to_string(), number(1));
    push_member(&mut members, "b".to_string(), JsonValue::String("x".to_string()));
    push_member(&mut members, "a".to_string(), number(3));
    assert!(same(find_member(&members, "a").unwrap(), &number(3)));
    assert!(find_member(&members, "c").is_none());
    let value = object(members);
    assert_eq!(as_object(&value).unwrap().len(), 3);
    assert!(as_array(&value).is_none());
    assert!(as_string(&value).is_none());
    let list = array(vec![JsonValue::String("s".to_string()), JsonValue::Null]);
    let items = as_array(&list).unwrap();
    assert_eq!(as_string(&items[0]).unwrap(), "s");
    assert!(as_string(&items[1]).is_none());
    assert!(as_object(&list).is_none());
    assert!(same(&list.clone(), &list));
    assert!(same(&value.clone(), &value));
}
