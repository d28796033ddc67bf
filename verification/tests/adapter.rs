use bencher_core::adapter::{parse_with, Adapter, AdapterKind};
use bencher_core::decimal::Decimal;
use bencher_core::error::{AdapterError, ValidError};
use bencher_core::google::{parse_google, parse_google_bytes, AdapterCppGoogle};
use bencher_core::metric::JsonMetric;
use bencher_core::name::NonEmpty;
use bencher_core::results::AdapterResults;
use bencher_core::units::{time_as_nanos, Units};

fn two_benchmarks_doc() -> &'static str {
    r#"{
        "context": {
            "date": "2021-09-28T20:35:53+00:00",
            "caches": [
                {"type": "Data", "level": 1, "size": 32768},
                {"type": "Instruction", "level": 1, "size": 32768}
            ],
            "mhz_per_cpu": 2800
        },
        "benchmarks": [
            {
                "name": "fib_10",
                "run_type": "iteration",
                "iterations": 3281459,
                "real_time": 214.98980114547953,
                "cpu_time": 214.96897120692118,
                "time_unit": "ns"
            },
            {
                "name": "fib_20",
                "run_type": "iteration",
                "iterations": 25608,
                "real_time": 27.455600415007055,
                "cpu_time": 27.45299274445487,
                "time_unit": "us"
            }
        ]
    }"#
}

fn dec(s: &str) -> Decimal {
    Decimal::parse(s).unwrap()
}

#[test]
fn test_adapter_json_latency() {
    let results = AdapterCppGoogle::parse(two_benchmarks_doc()).unwrap();
    validate_adapter_cpp_google(results);
}

pub fn validate_adapter_cpp_google(results: AdapterResults) {
    assert_eq!(results.inner.len(), 2);

    let metrics = results.get("fib_10").unwrap();
    assert_eq!(metrics.value, dec("214.98980114547953"));
    assert_eq!(metrics.lower_bound, None);
    assert_eq!(metrics.upper_bound, None);

    let metrics = results.get("fib_20").unwrap();
    assert_eq!(metrics.value, dec("27455.600415007055"));
    assert_eq!(metrics.lower_bound, None);
    assert_eq!(metrics.upper_bound, None);
}

#[test]
fn dispatch_by_kind_matches_the_concrete_parser() {
    let results = parse_with(AdapterKind::CppGoogle, two_benchmarks_doc()).unwrap();
    validate_adapter_cpp_google(results);
}

#[test]
fn empty_benchmark_list_parses_to_empty_collection() {
    let doc = r#"{"context": {"caches": []}, "benchmarks": []}"#;
    let results = parse_google(doc).unwrap();
    assert_eq!(results.len(), 0);
    assert!(results.get("fib_10").is_none());
}

#[test]
fn missing_benchmark_list_is_a_deserialization_error() {
    let doc = r#"{"context": {"caches": []}}"#;
    match parse_google(doc) {
        Err(AdapterError::Deserialization(_)) => {}
        other => panic!("expected a deserialization error, got {other:?}"),
    }
}

#[test]
fn invalid_json_is_a_deserialization_error() {
    match parse_google("{ not json") {
        Err(AdapterError::Deserialization(_)) => {}
        other => panic!("expected a deserialization error, got {other:?}"),
    }
}

#[test]
fn blank_name_in_document_is_a_validation_error() {
    let doc = r#"{
        "context": {"caches": []},
        "benchmarks": [
            {"name": "   ", "real_time": 1.5, "time_unit": "ns"}
        ]
    }"#;
    match parse_google(doc) {
        Err(AdapterError::Validation(ValidError::NonEmpty(s))) => assert_eq!(s, "   "),
        other => panic!("expected a name validation error, got {other:?}"),
    }
}

#[test]
fn duplicate_name_in_document_is_rejected() {
    let doc = r#"{
        "context": {"caches": []},
        "benchmarks": [
            {"name": "fib_10", "real_time": 1.5, "time_unit": "ns"},
            {"name": " fib_10 ", "real_time": 2.5, "time_unit": "ns"}
        ]
    }"#;
    match parse_google(doc) {
        Err(AdapterError::DuplicateBenchmarkName(s)) => assert_eq!(s, "fib_10"),
        other => panic!("expected a duplicate-name error, got {other:?}"),
    }
}

#[test]
fn undecodable_bytes_are_an_encoding_error() {
    let bytes: Vec<u8> = vec![0xff, 0xfe, 0x7b];
    match parse_google_bytes(&bytes) {
        Err(AdapterError::Encoding(_)) => {}
        other => panic!("expected an encoding error, got {other:?}"),
    }
}

#[test]
fn valid_bytes_parse_like_text() {
    let bytes: Vec<u8> = two_benchmarks_doc().as_bytes().to_vec();
    let results = parse_google_bytes(&bytes).unwrap();
    assert_eq!(results.len(), 2);
}

#[test]
fn all_units_convert_in_one_document() {
    let doc = r#"{
        "context": {"caches": []},
        "benchmarks": [
            {"name": "a", "real_time": 1.5, "time_unit": "ns"},
            {"name": "b", "real_time": 1.5, "time_unit": "us"},
            {"name": "c", "real_time": 1.5, "time_unit": "ms"},
            {"name": "d", "real_time": 1.5, "time_unit": "s"}
        ]
    }"#;
    let results = parse_google(doc).unwrap();
    assert_eq!(results.get("a").unwrap().value, dec("1.5"));
    assert_eq!(results.get("b").unwrap().value, dec("1500"));
    assert_eq!(results.get("c").unwrap().value, dec("1500000"));
    assert_eq!(results.get("d").unwrap().value, dec("1500000000"));
}

#[test]
fn unknown_unit_tag_is_a_deserialization_error() {
    let doc = r#"{
        "context": {"caches": []},
        "benchmarks": [
            {"name": "a", "real_time": 1.5, "time_unit": "h"}
        ]
    }"#;
    match parse_google(doc) {
        Err(AdapterError::Deserialization(_)) => {}
        other => panic!("expected a deserialization error, got {other:?}"),
    }
}

#[test]
fn name_validation_trims_and_rejects_blanks() {
    assert!(matches!(
        NonEmpty::from_raw(""),
        Err(ValidError::NonEmpty(s)) if s.is_empty()
    ));
    assert!(matches!(
        NonEmpty::from_raw("   "),
        Err(ValidError::NonEmpty(s)) if s == "   "
    ));
    let name = NonEmpty::from_raw("  fib_10  ").unwrap();
    assert_eq!(name.as_str(), "fib_10");
    assert_eq!(name, NonEmpty::from_raw("fib_10").unwrap());
}

#[test]
fn duplicate_rejection_in_bulk_construction() {
    let m1 = JsonMetric::new(dec("1"));
    let m2 = JsonMetric::new(dec("2"));
    let pairs = vec![("a".to_string(), m1), ("a".to_string(), m2)];
    match AdapterResults::from_pairs(pairs) {
        Err(AdapterError::DuplicateBenchmarkName(s)) => assert_eq!(s, "a"),
        other => panic!("expected a duplicate-name error, got {other:?}"),
    }
    // equal records change nothing
    let pairs = vec![("a".to_string(), m1), ("a".to_string(), m1)];
    assert!(matches!(
        AdapterResults::from_pairs(pairs),
        Err(AdapterError::DuplicateBenchmarkName(_))
    ));
}

#[test]
fn fail_fast_on_first_violation() {
    let m1 = JsonMetric::new(dec("1"));
    let m2 = JsonMetric::new(dec("2"));
    let pairs = vec![("a".to_string(), m1), ("".to_string(), m2)];
    match AdapterResults::from_pairs(pairs) {
        Err(AdapterError::Validation(ValidError::NonEmpty(s))) => assert_eq!(s, ""),
        other => panic!("expected a name validation error, got {other:?}"),
    }
}

#[test]
fn insertion_keeps_order_and_rejects_duplicates() {
    let mut c = AdapterResults::empty();
    let m = JsonMetric::new(dec("3.25"));
    c.insert(NonEmpty::from_raw("x").unwrap(), m).unwrap();
    c.insert(NonEmpty::from_raw("y").unwrap(), m).unwrap();
    assert_eq!(c.len(), 2);
    assert_eq!(c.inner[0].0.as_str(), "x");
    assert_eq!(c.inner[1].0.as_str(), "y");
    match c.insert(NonEmpty::from_raw("x").unwrap(), m) {
        Err(AdapterError::DuplicateBenchmarkName(s)) => assert_eq!(s, "x"),
        other => panic!("expected a duplicate-name error, got {other:?}"),
    }
    assert_eq!(c.len(), 2);
    assert_eq!(c.get("x").unwrap().value, dec("3.25"));
    assert!(c.get("z").is_none());
}

#[test]
fn unit_conversion_exact_values() {
    // microseconds: shifts the scale by three
    let v = dec("27.455600415007055");
    assert_eq!(time_as_nanos(v, Units::Micro), dec("27455.600415007055"));
    // nanoseconds: the identity
    assert_eq!(time_as_nanos(v, Units::Nano), v);
    // seconds on an integer value: the mantissa takes the factor
    assert_eq!(time_as_nanos(dec("1"), Units::Sec), dec("1000000000"));
    assert_eq!(time_as_nanos(dec("-2.5"), Units::Milli), dec("-2500000"));
    // zero and negative values pass through unchanged in meaning
    assert_eq!(time_as_nanos(dec("0"), Units::Sec), Decimal { mantissa: 0, scale: 0 });
}

#[test]
fn decimal_parsing_is_exact() {
    assert_eq!(dec("0"), Decimal { mantissa: 0, scale: 0 });
    assert_eq!(dec("42"), Decimal { mantissa: 42, scale: 0 });
    assert_eq!(dec("-12.5"), Decimal { mantissa: -125, scale: 1 });
    assert_eq!(
        dec("214.98980114547953"),
        Decimal { mantissa: 21498980114547953, scale: 14 }
    );
    assert!(Decimal::parse("").is_none());
    assert!(Decimal::parse("-").is_none());
    assert!(Decimal::parse("1.").is_none());
    assert!(Decimal::parse(".5").is_none());
    assert!(Decimal::parse("two").is_none());
    assert!(Decimal::parse("1 ").is_none());
    // beyond the 96-bit mantissa domain
    assert!(Decimal::parse("100000000000000000000000000000").is_none());
    assert_eq!(
        Decimal::parse("79228162514264337593543950335"),
        Some(Decimal { mantissa: 79228162514264337593543950335, scale: 0 })
    );
    // more fraction digits than the largest scale
    assert!(Decimal::parse("0.00000000000000000000000000001").is_none());
}

#[test]
fn decimal_exponents_are_exact() {
    assert_eq!(dec("1e3"), Decimal { mantissa: 1000, scale: 0 });
    assert_eq!(dec("1E3"), Decimal { mantissa: 1000, scale: 0 });
    assert_eq!(dec("1.5e+2"), Decimal { mantissa: 150, scale: 0 });
    assert_eq!(dec("2.5e1"), Decimal { mantissa: 25, scale: 0 });
    assert_eq!(dec("25e-3"), Decimal { mantissa: 25, scale: 3 });
    assert_eq!(dec("-1.25e-2"), Decimal { mantissa: -125, scale: 4 });
    assert_eq!(dec("0e99999999999999999999"), Decimal { mantissa: 0, scale: 0 });
    assert!(Decimal::parse("1e").is_none());
    assert!(Decimal::parse("1e+").is_none());
    assert!(Decimal::parse("1e3x").is_none());
    // the exponent pushes the value beyond the mantissa domain
    assert!(Decimal::parse("1e29").is_none());
    assert_eq!(dec("1e28"), Decimal { mantissa: 10000000000000000000000000000, scale: 0 });
    // or the scale beyond its bound
    assert!(Decimal::parse("1e-29").is_none());
    assert_eq!(dec("1e-28"), Decimal { mantissa: 1, scale: 28 });
}

#[test]
fn exponent_notation_in_documents() {
    let doc = r#"{
        "context": {"caches": []},
        "benchmarks": [
            {"name": "tiny", "real_time": 1.9e-2, "time_unit": "s"}
        ]
    }"#;
    let results = parse_google(doc).unwrap();
    assert_eq!(results.get("tiny").unwrap().value, dec("19000000"));
}
