use atomic_lib::decimal::{decimal_string, parse_i32, parse_i64, parse_u32};
use atomic_lib::text::{chars_of, contains, split_at_char, split_lines, starts_with, string_of};
use atomic_lib::values::{DATE_REGEX, SLUG_REGEX, UNWRITTEN_ARRAY};
use atomic_lib::{match_datatype, DataType, Error, ErrorKind, UnsupportedValue, Value};

#[test]
fn slug_validator() {
    assert_eq!(
        Value::new("my-slug-1", &DataType::Slug).unwrap(),
        Value::Slug("my-slug-1".into())
    );
    let e = Value::new("My_Slug", &DataType::Slug).unwrap_err();
    assert_eq!(e, Error::NotASlug { raw: "My_Slug".into() });
    assert_eq!(e.kind(), ErrorKind::Validation);
    assert!(Value::new("-leading", &DataType::Slug).is_err());
    assert!(Value::new("", &DataType::Slug).is_err());
    assert!(Value::new("trailing-", &DataType::Slug).is_err());
    assert!(Value::new("a--b", &DataType::Slug).is_err());
    assert!(Value::new("a\n", &DataType::Slug).is_err());
    assert!(Value::new("a", &DataType::Slug).is_ok());
}

#[test]
fn date_validator() {
    assert_eq!(
        Value::new("2022-01-31", &DataType::Date).unwrap(),
        Value::Date("2022-01-31".into())
    );
    let e = Value::new("2022-13-01", &DataType::Date).unwrap_err();
    assert_eq!(e, Error::NotADate { raw: "2022-13-01".into() });
    assert_eq!(e.kind(), ErrorKind::Validation);
    assert!(Value::new("22-01-31", &DataType::Date).is_err());
    assert!(Value::new("2022-00-10", &DataType::Date).is_err());
    assert!(Value::new("2022-12-32", &DataType::Date).is_err());
    assert!(Value::new("2022-12-31 ", &DataType::Date).is_err());
    assert!(Value::new("2022-10-10", &DataType::Date).is_ok());
}

#[test]
fn a_verdict_decides_slug_and_date() {
    assert_eq!(Value::slug("x", Some(true)).unwrap(), Value::Slug("x".into()));
    assert_eq!(Value::slug("x", Some(false)).unwrap_err(), Error::NotASlug { raw: "x".into() });
    assert_eq!(Value::slug("x", None).unwrap_err(), Error::NotASlug { raw: "x".into() });
    assert_eq!(Value::date("x", Some(true)).unwrap(), Value::Date("x".into()));
    assert_eq!(Value::date("x", Some(false)).unwrap_err(), Error::NotADate { raw: "x".into() });
    assert_eq!(Value::date("x", None).unwrap_err(), Error::NotADate { raw: "x".into() });
    assert_eq!(
        Value::resource_array("x", Some(vec!["a".into(), "b".into()])).unwrap(),
        Value::ResourceArray(vec!["a".into(), "b".into()])
    );
    assert_eq!(
        Value::resource_array("x", None).unwrap_err(),
        Error::NotAnArray { raw: "x".into() }
    );
    assert_eq!(Value::array_text(Some("[]".into())), "[]");
    assert_eq!(Value::array_text(None), UNWRITTEN_ARRAY);
    assert_eq!(UNWRITTEN_ARRAY, "[Could not serialize resource array");
    assert_eq!(SLUG_REGEX, r"^[a-z0-9]+(?:-[a-z0-9]+)*$");
    assert_eq!(DATE_REGEX, r"^\d{4}\-(0[1-9]|1[012])\-(0[1-9]|[12][0-9]|3[01])$");
}

#[test]
fn integers_and_timestamps() {
    assert_eq!(Value::new("42", &DataType::Integer).unwrap(), Value::Integer(42));
    assert_eq!(Value::new("-7", &DataType::Integer).unwrap(), Value::Integer(-7));
    assert_eq!(Value::new("+7", &DataType::Integer).unwrap(), Value::Integer(7));
    assert_eq!(Value::new("007", &DataType::Integer).unwrap(), Value::Integer(7));
    assert_eq!(
        Value::new("2147483647", &DataType::Integer).unwrap(),
        Value::Integer(i32::MAX)
    );
    assert_eq!(
        Value::new("-2147483648", &DataType::Integer).unwrap(),
        Value::Integer(i32::MIN)
    );
    let e = Value::new("2147483648", &DataType::Integer).unwrap_err();
    assert_eq!(e, Error::NotAnInteger { raw: "2147483648".into() });
    assert_eq!(e.kind(), ErrorKind::Parse);
    for bad in ["", "+", "-", " 1", "1 ", "1_000", "1.0", "0x10", "--1", "١"] {
        assert!(Value::new(bad, &DataType::Integer).is_err(), "{:?}", bad);
        assert!(Value::new(bad, &DataType::Timestamp).is_err(), "{:?}", bad);
    }
    assert_eq!(
        Value::new("1640995200000", &DataType::Timestamp).unwrap(),
        Value::Timestamp(1640995200000)
    );
    assert_eq!(
        Value::new("-9223372036854775808", &DataType::Timestamp).unwrap(),
        Value::Timestamp(i64::MIN)
    );
    let e = Value::new("9223372036854775808", &DataType::Timestamp).unwrap_err();
    assert_eq!(e, Error::NotATimestamp { raw: "9223372036854775808".into() });
    assert_eq!(e.kind(), ErrorKind::Parse);
}

#[test]
fn parsing_agrees_with_the_standard_library() {
    let samples = [
        "0", "-0", "+0", "1", "-1", "10", "0010", "99999999999", "-99999999999", "4294967295",
        "4294967296", "2147483647", "2147483648", "-2147483648", "-2147483649",
        "9223372036854775807", "9223372036854775808", "-9223372036854775808",
        "-9223372036854775809", "18446744073709551616", "340282366920938463463374607431768211456",
        "00000000000000000000000000000000000000000000000000000001", "", "+", "-", "+-1", "a",
        "1a", " 1", "1 ", "١٢", "1e3", "１",
    ];
    for s in samples {
        assert_eq!(parse_i32(s), s.parse::<i32>().ok(), "{:?}", s);
        assert_eq!(parse_i64(s), s.parse::<i64>().ok(), "{:?}", s);
        assert_eq!(parse_u32(s), s.parse::<u32>().ok(), "{:?}", s);
    }
}

#[test]
fn printing_agrees_with_the_standard_library() {
    for n in [0i64, 1, -1, 9, 10, 11, 99, 100, 101, -10, 1234567890, i64::MAX, i64::MIN, -42] {
        assert_eq!(decimal_string(n), n.to_string());
        assert_eq!(parse_i64(&decimal_string(n)), Some(n));
    }
    assert_eq!(decimal_string(-120), "-120");
}

#[test]
fn resource_arrays_keep_their_order() {
    let v = Value::new("[\"b\",\"a\",\"c\"]", &DataType::ResourceArray).unwrap();
    assert_eq!(v, Value::ResourceArray(vec!["b".into(), "a".into(), "c".into()]));
    assert_eq!(
        Value::new(" [ ] ", &DataType::ResourceArray).unwrap(),
        Value::ResourceArray(vec![])
    );
    let e = Value::new("Test", &DataType::ResourceArray).unwrap_err();
    assert_eq!(e, Error::NotAnArray { raw: "Test".into() });
    assert_eq!(e.kind(), ErrorKind::Parse);
    assert!(Value::new("[1,2]", &DataType::ResourceArray).is_err());
    assert!(Value::new("[\"a\"", &DataType::ResourceArray).is_err());
    assert!(Value::new("\"a\"", &DataType::ResourceArray).is_err());
}

#[test]
fn texts_are_taken_as_they_are() {
    assert_eq!(Value::new("x y", &DataType::String).unwrap(), Value::String("x y".into()));
    assert_eq!(Value::new("# x", &DataType::Markdown).unwrap(), Value::Markdown("# x".into()));
    assert_eq!(
        Value::new("not a url", &DataType::AtomicUrl).unwrap(),
        Value::AtomicUrl("not a url".into())
    );
    assert_eq!(
        Value::new("raw", &DataType::Unsupported("https://example.com/dt".into())).unwrap(),
        Value::Unsupported(UnsupportedValue {
            value: "raw".into(),
            datatype: "https://example.com/dt".into()
        })
    );
    assert_eq!(Value::from(String::from("s")), Value::String("s".into()));
    let v: Value = String::from("t").into();
    assert_eq!(v, Value::String("t".into()));
}

#[test]
fn decoding_the_text_of_a_value_gives_the_value() {
    let values = vec![
        Value::AtomicUrl("https://example.com".into()),
        Value::Date("2022-01-31".into()),
        Value::Integer(0),
        Value::Integer(-15),
        Value::Integer(i32::MIN),
        Value::Integer(i32::MAX),
        Value::Markdown("*m*".into()),
        Value::ResourceArray(vec![]),
        Value::ResourceArray(vec!["a".into(), "b \"quoted\" \\ \n\r\t \u{1F600} é".into()]),
        Value::Slug("my-slug-1".into()),
        Value::String("".into()),
        Value::Timestamp(i64::MIN),
        Value::Timestamp(1640995200),
        Value::Unsupported(UnsupportedValue { value: "v".into(), datatype: "d".into() }),
    ];
    for v in values {
        let text = v.to_string();
        assert_eq!(Value::new(&text, &v.datatype()).unwrap(), v);
    }
    assert_eq!(Value::Integer(-15).to_string(), "-15");
    assert_eq!(
        Value::ResourceArray(vec!["a".into(), "b".into()]).to_string(),
        "[\"a\",\"b\"]"
    );
    assert_eq!(Value::Timestamp(1640995200).to_string(), "1640995200");
    assert_eq!(
        Value::Unsupported(UnsupportedValue { value: "v".into(), datatype: "d".into() })
            .to_string(),
        "v"
    );
    assert_eq!(
        Value::Unsupported(UnsupportedValue { value: "v".into(), datatype: "d".into() })
            .datatype(),
        DataType::Unsupported("d".into())
    );
}

#[test]
fn datatypes_by_url() {
    let known = [
        ("https://atomicdata.dev/datatypes/integer", DataType::Integer),
        ("https://atomicdata.dev/datatypes/string", DataType::String),
        ("https://atomicdata.dev/datatypes/markdown", DataType::Markdown),
        ("https://atomicdata.dev/datatypes/slug", DataType::Slug),
        ("https://atomicdata.dev/datatypes/atomicURL", DataType::AtomicUrl),
        ("https://atomicdata.dev/datatypes/resourceArray", DataType::ResourceArray),
        ("https://atomicdata.dev/datatypes/date", DataType::Date),
        ("https://atomicdata.dev/datatypes/timestamp", DataType::Timestamp),
    ];
    for (url, datatype) in known {
        assert_eq!(match_datatype(url), datatype);
    }
    assert_eq!(
        match_datatype("https://atomicdata.dev/datatypes/Integer"),
        DataType::Unsupported("https://atomicdata.dev/datatypes/Integer".into())
    );
    assert_eq!(match_datatype(""), DataType::Unsupported("".into()));
    assert_eq!(
        Value::new_from_string(
            &"12".to_string(),
            &"https://atomicdata.dev/datatypes/integer".to_string()
        )
        .unwrap(),
        Value::Integer(12)
    );
    assert_eq!(
        Value::new_from_string(&"12".to_string(), &"other".to_string()).unwrap(),
        Value::Unsupported(UnsupportedValue { value: "12".into(), datatype: "other".into() })
    );
}

#[test]
fn splitting_agrees_with_the_standard_library() {
    for s in ["", " ", "a", "a b", "a  b", " a", "a ", "  ", "é ü  ∑", "a b c d"] {
        let expected: Vec<String> = s.split(' ').map(String::from).collect();
        assert_eq!(split_at_char(s, ' '), expected, "{:?}", s);
    }
    for s in [
        "", "\n", "a", "a\n", "a\nb", "a\r\nb", "a\n\nb\n", "foo\nbar\n\r\nbaz\r", "\r", "\r\n",
        "a\r\r\n", "\n\n", "é\nü",
    ] {
        let expected: Vec<String> = s.lines().map(String::from).collect();
        assert_eq!(split_lines(s), expected, "{:?}", s);
    }
}

#[test]
fn prefixes_and_parts() {
    assert!(starts_with("_:test", "_:"));
    assert!(starts_with("_:", "_:"));
    assert!(starts_with("x", ""));
    assert!(!starts_with("_", "_:"));
    assert!(!starts_with("a_:", "_:"));
    assert!(contains("https://x/commits/1", "/commits/"));
    assert!(contains("/commits/", "/commits/"));
    assert!(contains("abc", ""));
    assert!(contains("", ""));
    assert!(!contains("https://x/commit/1", "/commits/"));
    assert!(!contains("", "a"));
    assert!(contains("aab", "ab"));
    assert_eq!(chars_of("aé∑"), vec!['a', 'é', '∑']);
    assert_eq!(string_of(&vec!['a', 'é', '∑'], 1, 3), "é∑");
    assert_eq!(string_of(&vec!['a'], 1, 1), "");
}
