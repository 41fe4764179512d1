use buffa::json_helpers::wkt::{
    camel_to_snake, date_to_days, days_to_date, field_mask_path_round_trips, fmt_duration,
    fmt_timestamp, parse_duration, parse_timestamp, snake_to_camel, validate_duration,
    MAX_DURATION_SECS, MAX_TIMESTAMP_SECS, MIN_TIMESTAMP_SECS,
};

#[test]
fn timestamp_round_trip() {
    let cases = [
        (0, 0, "1970-01-01T00:00:00Z"),
        (1, 0, "1970-01-01T00:00:01Z"),
        (-1, 0, "1969-12-31T23:59:59Z"),
        (0, 500_000_000, "1970-01-01T00:00:00.500Z"),
        (0, 1, "1970-01-01T00:00:00.000000001Z"),
        (1_609_459_200, 0, "2021-01-01T00:00:00Z"),
        (
            MAX_TIMESTAMP_SECS,
            999_999_999,
            "9999-12-31T23:59:59.999999999Z",
        ),
        (MIN_TIMESTAMP_SECS, 0, "0001-01-01T00:00:00Z"),
    ];
    for (secs, nanos, expected) in cases {
        assert_eq!(fmt_timestamp(secs, nanos).unwrap(), expected);
        assert_eq!(parse_timestamp(expected).unwrap(), (secs, nanos));
    }
}

#[test]
fn timestamp_rejects_invalid() {
    assert!(parse_timestamp("0000-01-01T00:00:00Z").is_err()); // year 0
    assert!(parse_timestamp("2021-02-30T00:00:00Z").is_err()); // Feb 30
    assert!(parse_timestamp("2021-01-01t00:00:00Z").is_err()); // lowercase t
    assert!(parse_timestamp("2021-01-01T00:00:00z").is_err()); // lowercase z
    assert!(parse_timestamp("2021-01-01T00:00:60Z").is_err()); // leap second
    assert!(parse_timestamp("2021-13-01T00:00:00Z").is_err()); // month 13
    assert!(parse_timestamp("ñotrfc3339").is_err()); // non-ASCII
    assert!(fmt_timestamp(MAX_TIMESTAMP_SECS + 1, 0).is_err());
    assert!(fmt_timestamp(0, -1).is_err());
}

#[test]
fn duration_round_trip() {
    let cases = [
        (0, 0, "0s"),
        (1, 500_000_000, "1.500s"),
        (-1, -500_000_000, "-1.500s"),
        (0, -1, "-0.000000001s"),
        (MAX_DURATION_SECS, 999_999_999, "315576000000.999999999s"),
    ];
    for (secs, nanos, expected) in cases {
        assert_eq!(fmt_duration(secs, nanos).unwrap(), expected);
        assert_eq!(parse_duration(expected).unwrap(), (secs, nanos));
    }
}

#[test]
fn duration_rejects_invalid() {
    assert!(fmt_duration(MAX_DURATION_SECS + 1, 0).is_err());
    assert!(fmt_duration(1, -1).is_err()); // opposite signs
    assert!(fmt_duration(0, 1_000_000_000).is_err()); // nanos overflow
    assert!(parse_duration("--5s").is_err()); // double sign
    assert!(parse_duration("1.5").is_err()); // no suffix
    assert!(parse_duration("1.5e9s").is_err()); // exponent
}

#[test]
fn field_mask_round_trip() {
    assert_eq!(snake_to_camel("foo_bar"), "fooBar");
    assert_eq!(camel_to_snake("fooBar"), "foo_bar");
    assert_eq!(snake_to_camel("user.first_name"), "user.firstName");
    assert!(field_mask_path_round_trips("foo_bar"));
    assert!(field_mask_path_round_trips("user.first_name"));
    assert!(!field_mask_path_round_trips("foo__bar"));
    assert!(!field_mask_path_round_trips("foo_3_bar"));
    assert!(!field_mask_path_round_trips("fooBar"));
}

#[test]
fn timestamp_errors_name_the_first_bad_component() {
    assert_eq!(parse_timestamp("ñ"), Err("non-ASCII in timestamp"));
    assert_eq!(parse_timestamp("2021"), Err("timestamp too short"));
    assert_eq!(parse_timestamp("2021-01-01T00:00:00"), Err("missing or malformed timezone"));
    assert_eq!(parse_timestamp("2021-01-01T00:00:00+01-00"), Err("malformed timezone offset"));
    assert_eq!(parse_timestamp("2021-01-01T00:00:00+xx:00"), Err("bad offset hours"));
    assert_eq!(parse_timestamp("2021-01-01T00:00:00+01:xx"), Err("bad offset minutes"));
    assert_eq!(parse_timestamp("2021-01-01T00:00:00+24:00"), Err("offset out of range"));
    assert_eq!(parse_timestamp("2021-01-01 00:00:00Z"), Err("missing 'T' separator"));
    assert_eq!(parse_timestamp("2021-1-01T00:00:00Z"), Err("malformed date or time"));
    assert_eq!(parse_timestamp("2021/01/01T00:00:00Z"), Err("malformed separators"));
    assert_eq!(parse_timestamp("20x1-01-01T00:00:00Z"), Err("bad year"));
    assert_eq!(parse_timestamp("2021-0x-01T00:00:00Z"), Err("bad month"));
    assert_eq!(parse_timestamp("2021-01-0xT00:00:00Z"), Err("bad day"));
    assert_eq!(parse_timestamp("2021-01-01Tx0:00:00Z"), Err("bad hour"));
    assert_eq!(parse_timestamp("2021-01-01T00:x0:00Z"), Err("bad minute"));
    assert_eq!(parse_timestamp("2021-01-01T00:00:x0Z"), Err("bad second"));
    assert_eq!(parse_timestamp("2021-01-01T24:00:00Z"), Err("time component out of range"));
    assert_eq!(parse_timestamp("2021-01-01T00:00:00,5Z"), Err("malformed fractional seconds"));
    assert_eq!(parse_timestamp("2021-01-01T00:00:00.Z"), Err("bad fractional seconds"));
    assert_eq!(parse_timestamp("2021-02-29T00:00:00Z"), Err("invalid date"));
    assert_eq!(
        parse_timestamp("9999-12-31T23:59:59-23:59"),
        Err("Timestamp out of range after applying offset")
    );
}

#[test]
fn timestamp_offsets_shift_to_utc() {
    assert_eq!(parse_timestamp("1970-01-01T01:00:00+01:00"), Ok((0, 0)));
    assert_eq!(parse_timestamp("1969-12-31T23:00:00-01:00"), Ok((0, 0)));
    // RFC 3339 fields are digits only: a sign inside the offset is refused.
    assert_eq!(parse_timestamp("1970-01-01T01:00:00++1:00"), Err("bad offset hours"));
    assert_eq!(parse_timestamp("2000-02-29T12:30:15.250Z"), Ok((951_827_415, 250_000_000)));
}

#[test]
fn duration_parsing_edge_cases() {
    assert_eq!(parse_duration("5.s"), Ok((5, 0)));
    assert_eq!(parse_duration(".5s"), Err("bad seconds"));
    assert_eq!(parse_duration("-0s"), Ok((0, 0)));
    assert_eq!(parse_duration("+5s"), Err("malformed sign"));
    assert_eq!(parse_duration("1.0000000001s"), Err("bad fractional seconds"));
    assert_eq!(parse_duration("315576000001s"), Err("Duration seconds out of range"));
    assert_eq!(parse_duration("99999999999999999999s"), Err("bad seconds"));
    assert_eq!(fmt_duration(3, 1_000), Ok("3.000001s".to_string()));
    assert_eq!(fmt_duration(3, 7), Ok("3.000000007s".to_string()));
}

#[test]
fn duration_validation_names_the_violated_invariant() {
    assert_eq!(validate_duration(0, 1_000_000_000), Err("Duration nanos out of range"));
    assert_eq!(validate_duration(-MAX_DURATION_SECS - 1, 0), Err("Duration seconds out of range"));
    assert_eq!(validate_duration(-1, 1), Err("Duration seconds and nanos have opposite signs"));
    assert_eq!(validate_duration(-1, -1), Ok(()));
}

#[test]
fn civil_calendar_round_trips() {
    assert_eq!(days_to_date(0), (1970, 1, 1));
    assert_eq!(days_to_date(-1), (1969, 12, 31));
    assert_eq!(days_to_date(11_016), (2000, 2, 29));
    assert_eq!(date_to_days(2000, 2, 29), Some(11_016));
    assert_eq!(date_to_days(1900, 2, 29), None);
    assert_eq!(date_to_days(2021, 13, 1), None);
    assert_eq!(date_to_days(2021, 1, 0), None);
    for z in [-1_000_000i64, -719_162, -1, 0, 59, 60, 365, 2_932_896, 10_000_000] {
        let (y, m, d) = days_to_date(z);
        assert_eq!(date_to_days(y, m, d), Some(z));
    }
}

#[test]
fn field_masks_keep_dotted_components_apart() {
    assert_eq!(snake_to_camel("a_.b"), "a.b");
    assert_eq!(camel_to_snake("Foo.Bar"), "foo.bar");
    assert_eq!(camel_to_snake("fooBarBaz"), "foo_bar_baz");
    assert_eq!(snake_to_camel("__x"), "X");
    assert_eq!(snake_to_camel(""), "");
}

#[test]
fn timestamp_fields_are_digits_only() {
    assert_eq!(parse_timestamp("+999-+1-01T00:00:00Z"), Err("bad year"));
    assert_eq!(parse_timestamp("2021-+1-01T00:00:00Z"), Err("bad month"));
    assert_eq!(parse_timestamp("2021-01-01T+1:00:00Z"), Err("bad hour"));
    assert_eq!(parse_timestamp("2021-01-01T00:00:00+-1:00"), Err("bad offset hours"));
    assert_eq!(parse_timestamp("2021-01-01T00:00:00+01:+0"), Err("bad offset minutes"));
}
