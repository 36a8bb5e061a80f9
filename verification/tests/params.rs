use resty::request::params::{Error, Params, Parser, StdParser};
use resty::request::url_parser::{ScalarKind, ScalarValue, TypedParser, TypedSegment};

#[test]
fn should_parse_string_to_std_parser() {
    let params = Params::from_pattern("/{id}");
    assert_eq!(params.prefix, "/");
    let parsed = params.parser.parse("/5", params.prefix.len()).unwrap();
    assert_eq!(parsed.get_str("id").unwrap(), "5");
    assert_eq!(parsed.get::<usize>("id").unwrap(), 5);
    assert_eq!(parsed.get::<f64>("id").unwrap(), 5.0f64);
    assert_eq!(parsed.get::<u32>("id").unwrap(), 5u32);
    assert_eq!(parsed.get::<u64>("id").unwrap(), 5u64);

    let params = Params::from_pattern("/test/{id}");
    assert_eq!(params.prefix, "/test/");
    let parsed = params.parser.parse("/test/5", params.prefix.len()).unwrap();
    assert_eq!(parsed.get_str("id").unwrap(), "5");
    assert_eq!(parsed.get::<usize>("id").unwrap(), 5);
    assert_eq!(parsed.get::<f64>("id").unwrap(), 5.0f64);
    assert_eq!(parsed.get::<u32>("id").unwrap(), 5u32);
    assert_eq!(parsed.get::<u64>("id").unwrap(), 5u64);

    let params = Params::from_pattern("/test/{id}/xxx");
    assert_eq!(params.prefix, "/test/");
    let parsed = params.parser.parse("/test/5/xxx", params.prefix.len()).unwrap();
    assert_eq!(parsed.get_str("id").unwrap(), "5");
    assert_eq!(parsed.get::<usize>("id").unwrap(), 5);
    assert_eq!(parsed.get::<f64>("id").unwrap(), 5.0f64);
    assert_eq!(parsed.get::<u32>("id").unwrap(), 5u32);
    assert_eq!(parsed.get::<u64>("id").unwrap(), 5u64);
}

#[test]
fn url_parser() {
    let segments = vec![
        TypedSegment::Param("id".to_string(), ScalarKind::Unsigned),
        TypedSegment::Param("a".to_string(), ScalarKind::Text),
    ];
    let parser = TypedParser::new(segments, "/{id}/{a}".to_string());
    let prefix = "/v1/test";

    let parsed = parser.parse("/v1/test/5/3", prefix.len()).unwrap();
    assert_eq!(parsed.get("id"), Some(&ScalarValue::Unsigned(5)));
    assert_eq!(parsed.get("a"), Some(&ScalarValue::Text("3".to_string())));
}

#[test]
fn typed_parse_succeeds_iff_exactly_the_declared_segments_follow() {
    let parser = TypedParser::new(
        vec![
            TypedSegment::Literal("items".to_string()),
            TypedSegment::Param("id".to_string(), ScalarKind::Unsigned),
        ],
        "/items/{id}".to_string(),
    );

    assert!(parser.parse("/v1/items/7", 3).is_ok());
    // too few segments
    assert_eq!(parser.parse("/v1/items", 3).unwrap_err(), Error::NotFound);
    // too many segments
    assert_eq!(parser.parse("/v1/items/7/x", 3).unwrap_err(), Error::NotFound);
    // literal mismatch
    assert_eq!(
        parser.parse("/v1/item/7", 3).unwrap_err(),
        Error::InvalidSegment { got: "item".to_string(), expected: "items".to_string() }
    );
    // a zero-arity typed parser accepts only the bare prefix
    let empty = TypedParser::new(Vec::new(), "".to_string());
    assert!(empty.parse("/v1", 3).is_ok());
    assert!(empty.parse("/v1/x", 3).is_err());
}

#[test]
fn typed_parse_rejects_non_numeric_unsigned_segment() {
    let parser = TypedParser::new(
        vec![TypedSegment::Param("id".to_string(), ScalarKind::Unsigned)],
        "/{id}".to_string(),
    );
    match parser.parse("/x/abc", 2).unwrap_err() {
        Error::InvalidType { param, path, .. } => {
            assert_eq!(param, "id");
            assert_eq!(path, "abc");
        },
        other => panic!("unexpected error: {:?}", other),
    }
    // overflow is rejected, the largest value is accepted
    assert!(parser.parse("/x/18446744073709551616", 2).is_err());
    let parsed = parser.parse("/x/18446744073709551615", 2).unwrap();
    assert_eq!(parsed.get("id"), Some(&ScalarValue::Unsigned(u64::MAX)));
}

#[test]
fn dynamic_parser_reports_each_error_kind() {
    // UnknownParameter
    let params = Params::from_pattern("/{id}");
    let parsed = params.parser.parse("/5", 1).unwrap();
    assert_eq!(
        parsed.get_str("nope").unwrap_err(),
        Error::UnknownParameter("nope".to_string())
    );

    // InvalidType
    match parsed.get::<u32>("id") {
        Ok(v) => assert_eq!(v, 5),
        Err(e) => panic!("unexpected error: {:?}", e),
    }
    let parsed = params.parser.parse("/abc", 1).unwrap();
    match parsed.get::<u32>("id").unwrap_err() {
        Error::InvalidType { param, path, .. } => {
            assert_eq!(param, "id");
            assert_eq!(path, "abc");
        },
        other => panic!("unexpected error: {:?}", other),
    }

    // NotFound: a zero-arity parser rejects a non-empty suffix
    let exact = Params::from_pattern("/status");
    assert_eq!(exact.prefix, "/status");
    assert_eq!(
        exact.parser.parse("/status/extra", exact.prefix.len()).unwrap_err(),
        Error::NotFound
    );

    // InvalidSegment: a literal token must match byte for byte
    let mixed = Params::from_pattern("/a/{x}/fixed");
    assert_eq!(mixed.prefix, "/a/");
    assert_eq!(
        mixed.parser.parse("/a/1/wrong", mixed.prefix.len()).unwrap_err(),
        Error::InvalidSegment { got: "wrong".to_string(), expected: "fixed".to_string() }
    );
    assert!(mixed.parser.parse("/a/1/fixed", mixed.prefix.len()).is_ok());

    // NotFound: the path ran out before a literal token
    assert_eq!(
        mixed.parser.parse("/a/1", mixed.prefix.len()).unwrap_err(),
        Error::NotFound
    );
}

#[test]
fn expected_params_counts_segments_and_prints_pattern() {
    let params = Params::from_pattern("/test/{id}/xxx/{rest}");
    let (count, pattern) = params.parser.expected_params();
    assert_eq!(count, 3);
    assert_eq!(pattern, "/{id}/{rest}");

    let plain: StdParser = Default::default();
    let (count, pattern) = plain.expected_params();
    assert_eq!(count, 0);
    assert_eq!(pattern, "");
}

#[test]
fn params_error_maps_to_api_error_statuses() {
    assert_eq!(Error::NotFound.to_api_error().code, 404);
    assert_eq!(
        Error::UnknownParameter("p".to_string()).to_api_error().code,
        500
    );
    let e = Error::InvalidType {
        param: "id".to_string(),
        path: "abc".to_string(),
        error: "bad".to_string(),
    }
    .to_api_error();
    assert_eq!(e.code, 400);
    assert_eq!(e.message, "Error while parsing parameter id from abc");
    assert_eq!(e.details, "bad");
    let e = Error::InvalidSegment { got: "g".to_string(), expected: "x".to_string() }
        .to_api_error();
    assert_eq!(e.code, 404);
    assert_eq!(
        e.details,
        "The resource exists, but the path is invalid. Got g, expected x"
    );
}
