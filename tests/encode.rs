use better_vdf::{Deserializer, Serializer};

#[test]
fn scalars() {
    let mut ser = Serializer::new();
    ser.serialize_bool(true);
    ser.serialize_bool(false);
    ser.serialize_i64(-42);
    ser.serialize_u64(18446744073709551615);
    ser.serialize_str("Better VDF");
    assert_eq!(
        ser.into_string(),
        "\"1\"\"0\"\"-42\"\"18446744073709551615\"\"Better VDF\""
    );
}

#[test]
fn sequence_keys_count_up() {
    let mut ser = Serializer::new();
    ser.begin_container();
    for s in ["a", "b", "c"] {
        ser.begin_element();
        ser.serialize_str(s);
    }
    ser.end_container();
    assert_eq!(
        ser.into_string(),
        "{\n\t\"0\"\t\t\"a\"\n\t\"1\"\t\t\"b\"\n\t\"2\"\t\t\"c\"\n}"
    );
}

#[test]
fn nested_indentation() {
    let mut ser = Serializer::new();
    ser.begin_container();
    ser.begin_field("test");
    ser.begin_container();
    ser.begin_field("name");
    ser.serialize_str("Better VDF");
    ser.begin_entry();
    ser.serialize_u64(228980);
    ser.write_separator();
    ser.serialize_i64(12318293);
    ser.end_container();
    ser.end_container();
    assert_eq!(
        ser.into_string(),
        "{\n\t\"test\"\t\t{\n\t\t\"name\"\t\t\"Better VDF\"\n\t\t\"228980\"\t\t\"12318293\"\n\t}\n}"
    );
}

#[test]
fn empty_containers() {
    let mut ser = Serializer::new();
    ser.begin_container();
    ser.begin_field("list");
    ser.begin_container();
    ser.end_container();
    ser.end_container();
    assert_eq!(ser.into_string(), "{\n\t\"list\"\t\t{\n\t}\n}");
}

#[test]
fn next_index_tracks_elements() {
    let mut ser = Serializer::new();
    ser.begin_container();
    assert_eq!(ser.next_index(), 0);
    ser.begin_element();
    ser.serialize_str("x");
    assert_eq!(ser.next_index(), 1);
    ser.begin_element();
    ser.begin_container();
    assert_eq!(ser.next_index(), 0);
    ser.end_container();
    assert_eq!(ser.next_index(), 2);
}

#[test]
fn integers_read_back() {
    for v in [i64::MIN, -1, 0, 7, i64::MAX] {
        let mut ser = Serializer::new();
        ser.serialize_i64(v);
        let text = ser.into_string();
        let mut de = Deserializer::from_str(&text);
        assert_eq!(de.parse_signed(i64::MIN, i64::MAX), Ok(v));
    }
    for v in [0u64, 9, 10, u64::MAX] {
        let mut ser = Serializer::new();
        ser.serialize_u64(v);
        let text = ser.into_string();
        let mut de = Deserializer::from_str(&text);
        assert_eq!(de.parse_unsigned(u64::MAX), Ok(v));
    }
}
