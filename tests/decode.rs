use better_vdf::{Deserializer, Error};

/// Reads a mapping of string keys to string values, as a binding layer would.
fn read_string_map(text: &str) -> Result<Vec<(String, String)>, Error> {
    let mut de = Deserializer::from_str(text);
    let root = de.begin_map()?;
    let mut pairs = Vec::new();
    while de.next_key(root)? {
        let k = de.parse_string()?.to_string();
        let v = de.parse_string()?.to_string();
        pairs.push((k, v));
    }
    de.finish()?;
    Ok(pairs)
}

#[test]
fn sequence_index_enforced() {
    let mut de = Deserializer::from_str(r#"{"0" "a" "2" "b"}"#);
    de.begin_seq().unwrap();
    assert_eq!(de.next_element(0), Ok(true));
    assert_eq!(de.parse_string(), Ok("a"));
    match de.next_element(1) {
        Err(Error::SequenceIndexMismatch { expected, found }) => {
            assert_eq!(expected, 1);
            assert_eq!(found, "2");
        }
        other => panic!("unexpected {other:?}"),
    }
}

#[test]
fn sequence_reads_in_order() {
    let mut de = Deserializer::from_str("{\n\t\"0\"\t\t\"a\"\n\t\"1\"\t\t\"b\"\n}");
    de.begin_seq().unwrap();
    let mut items = Vec::new();
    let mut i: usize = 0;
    while de.next_element(i).unwrap() {
        items.push(de.parse_string().unwrap().to_string());
        i += 1;
    }
    assert_eq!(items, vec!["a".to_string(), "b".to_string()]);
    assert_eq!(de.finish(), Ok(()));
}

#[test]
fn root_without_braces() {
    assert_eq!(
        read_string_map(r#""k" "v""#),
        Ok(vec![("k".to_string(), "v".to_string())])
    );
}

#[test]
fn root_with_stray_text() {
    assert_eq!(read_string_map(r#""k" "v" x"#), Err(Error::TrailingCharacters));
}

#[test]
fn root_with_braces() {
    assert_eq!(
        read_string_map(r#"{"k" "v"}"#),
        Ok(vec![("k".to_string(), "v".to_string())])
    );
}

#[test]
fn root_ended_by_brace() {
    assert_eq!(
        read_string_map("\"k\" \"v\"\n}\n"),
        Ok(vec![("k".to_string(), "v".to_string())])
    );
}

#[test]
fn empty_root() {
    assert_eq!(read_string_map("  \n"), Ok(vec![]));
}

#[test]
fn trailing_whitespace_allowed() {
    assert_eq!(
        read_string_map("{\"k\" \"v\"}\n\t \r\n"),
        Ok(vec![("k".to_string(), "v".to_string())])
    );
}

#[test]
fn trailing_text_after_braced_root() {
    assert_eq!(read_string_map(r#"{"k" "v"} "x""#), Err(Error::TrailingCharacters));
}

#[test]
fn boolean_strictness() {
    let mut de = Deserializer::from_str(r#""true""#);
    assert_eq!(de.parse_bool(), Err(Error::InvalidBoolean));
    let mut de = Deserializer::from_str(r#""1""#);
    assert_eq!(de.parse_bool(), Ok(true));
    let mut de = Deserializer::from_str(r#""0""#);
    assert_eq!(de.parse_bool(), Ok(false));
}

#[test]
fn failed_boolean_consumes_nothing() {
    let mut de = Deserializer::from_str(r#" "yes" "#);
    assert_eq!(de.parse_bool(), Err(Error::InvalidBoolean));
    assert_eq!(de.parse_string(), Ok("yes"));
}

#[test]
fn unterminated_scalar() {
    assert_eq!(read_string_map(r#"{"k" "v}"#), Err(Error::UnexpectedEndOfInput));
}

#[test]
fn whitespace_insignificant() {
    let a = read_string_map("{\"k\"   \"v\"}").unwrap();
    let b = read_string_map("{\n\t\"k\"\t\"v\"\n}").unwrap();
    assert_eq!(a, b);
    assert_eq!(a, vec![("k".to_string(), "v".to_string())]);
}

#[test]
fn scalar_is_verbatim() {
    let mut de = Deserializer::from_str("\t\"  a b\tc \"");
    assert_eq!(de.parse_string(), Ok("  a b\tc "));
    assert_eq!(de.finish(), Ok(()));
}

#[test]
fn scalar_with_multibyte_characters() {
    let mut de = Deserializer::from_str("\"héllo wörld\" \"ß\"");
    assert_eq!(de.parse_string(), Ok("héllo wörld"));
    assert_eq!(de.parse_string(), Ok("ß"));
}

#[test]
fn expected_string() {
    let mut de = Deserializer::from_str("  {");
    assert_eq!(de.parse_string(), Err(Error::ExpectedString));
}

#[test]
fn end_of_input() {
    let mut de = Deserializer::from_str(" \n ");
    assert_eq!(de.parse_string(), Err(Error::UnexpectedEndOfInput));
    assert_eq!(de.peek_real_char(), Err(Error::UnexpectedEndOfInput));
    assert_eq!(de.next_real_char(), Err(Error::UnexpectedEndOfInput));
    assert_eq!(de.begin_seq(), Err(Error::UnexpectedEndOfInput));
}

#[test]
fn raw_and_significant_characters() {
    let mut de = Deserializer::from_str(" \tx");
    assert_eq!(de.peek_char(), Ok(' '));
    assert_eq!(de.peek_real_char(), Ok('x'));
    assert_eq!(de.next_char(), Ok(' '));
    assert_eq!(de.next_real_char(), Ok('x'));
    assert_eq!(de.next_char(), Err(Error::UnexpectedEndOfInput));
}

#[test]
fn signed_numbers() {
    let mut de = Deserializer::from_str(r#""-12393180" "+7" "300" "12.5" "" "-""#);
    assert_eq!(de.parse_signed(i64::MIN, i64::MAX), Ok(-12393180));
    assert_eq!(de.parse_signed(i8::MIN as i64, i8::MAX as i64), Ok(7));
    assert_eq!(de.parse_signed(i8::MIN as i64, i8::MAX as i64), Err(Error::InvalidNumber));
    assert_eq!(de.parse_signed(i16::MIN as i64, i16::MAX as i64), Ok(300));
    assert_eq!(de.parse_signed(i64::MIN, i64::MAX), Err(Error::InvalidNumber));
    assert_eq!(de.parse_string(), Ok("12.5"));
    assert_eq!(de.parse_signed(i64::MIN, i64::MAX), Err(Error::InvalidNumber));
    assert_eq!(de.parse_string(), Ok(""));
    assert_eq!(de.parse_signed(i64::MIN, i64::MAX), Err(Error::InvalidNumber));
}

#[test]
fn unsigned_numbers() {
    let mut de = Deserializer::from_str(r#""228980" "-1" "256" "18446744073709551615""#);
    assert_eq!(de.parse_unsigned(u64::MAX), Ok(228980));
    assert_eq!(de.parse_unsigned(u64::MAX), Err(Error::InvalidNumber));
    assert_eq!(de.parse_string(), Ok("-1"));
    assert_eq!(de.parse_unsigned(u8::MAX as u64), Err(Error::InvalidNumber));
    assert_eq!(de.parse_unsigned(u16::MAX as u64), Ok(256));
    assert_eq!(de.parse_unsigned(u64::MAX), Ok(u64::MAX));
}

#[test]
fn expected_sequence() {
    let mut de = Deserializer::from_str(r#""0""#);
    assert_eq!(de.begin_seq(), Err(Error::ExpectedSequence));
}

#[test]
fn expected_sequence_end() {
    let mut de = Deserializer::from_str(r#"{"0" "a""#);
    de.begin_seq().unwrap();
    assert_eq!(de.next_element(0), Ok(true));
    assert_eq!(de.parse_string(), Ok("a"));
    assert_eq!(de.next_element(1), Err(Error::ExpectedSequenceEnd));
}

#[test]
fn sequence_key_must_be_exact_text() {
    let mut de = Deserializer::from_str(r#"{"00" "a"}"#);
    de.begin_seq().unwrap();
    assert!(matches!(
        de.next_element(0),
        Err(Error::SequenceIndexMismatch { expected: 0, .. })
    ));
}

#[test]
fn expected_mapping() {
    let mut de = Deserializer::from_str(r#""a" "b""#);
    assert_eq!(de.parse_string(), Ok("a"));
    assert_eq!(de.begin_map(), Err(Error::ExpectedMapping));
}

#[test]
fn expected_mapping_end() {
    let mut de = Deserializer::from_str(r#""outer" {"k" "v""#);
    let root = de.begin_map().unwrap();
    assert!(root);
    assert_eq!(de.next_key(root), Ok(true));
    assert_eq!(de.parse_string(), Ok("outer"));
    assert_eq!(de.begin_map(), Ok(false));
    assert_eq!(de.next_key(false), Ok(true));
    assert_eq!(de.parse_string(), Ok("k"));
    assert_eq!(de.parse_string(), Ok("v"));
    assert_eq!(de.next_key(false), Err(Error::ExpectedMappingEnd));
}

#[test]
fn nested_key_must_be_quoted() {
    let mut de = Deserializer::from_str(r#""a" {x "v"}"#);
    let root = de.begin_map().unwrap();
    assert_eq!(de.next_key(root), Ok(true));
    assert_eq!(de.parse_string(), Ok("a"));
    assert_eq!(de.begin_map(), Ok(false));
    assert_eq!(de.next_key(false), Ok(true));
    assert_eq!(de.parse_string(), Err(Error::ExpectedString));
}

#[test]
fn error_messages() {
    assert_eq!(Error::UnexpectedEndOfInput.message(), "unexpected end of string");
    assert_eq!(Error::UnsupportedShape.message(), "unsupported data type");
    assert_eq!(Error::TrailingCharacters.message(), "trailing characters");
    assert_eq!(Error::Message("custom".to_string()).message(), "custom");
    let e = Error::SequenceIndexMismatch {
        expected: 1,
        found: "2".to_string(),
    };
    assert_eq!(e.message(), "expected sequence index 1, found 2");
}
