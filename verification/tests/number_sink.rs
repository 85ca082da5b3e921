use std::str::FromStr;

use core_json::NumberSink;

#[test]
fn number_sink() {
    // Handle various floats
    {
        let test = |value: f64, expected: &str| {
            let mut sink = NumberSink::new();
            let formatted = format!("{}", value);
            for b in formatted.bytes() {
                sink.push_byte(b);
            }
            let buf = sink.imprecise_str().unwrap();
            let s = std::str::from_utf8(&buf).unwrap();
            let candidate = f64::from_str(s).unwrap();
            assert!(candidate.is_finite());
            assert_eq!(candidate, f64::from_str(expected).unwrap());
        };
        test(0.0, "0");
        test(0.1, "0.1");
        test(0.01, "0.01");
        test(0.001, "0.001");
        test(0.0012, "0.0012");
        test(0.12345678910111213, "0.123456789101112");
        test(0.012345678910111213, "0.0123456789101112");
        test(12345678910111213.0, "123456789101112e2");
        test(12345678910111213.123, "123456789101112e2");
        test(123456789.101112, "123456789.101112");
        test(123456789.10111213, "123456789.101112");
        test(-1.0, "-1");
        test(f64::MIN, "-179769313486231e294");
        test(f64::MAX, "179769313486231e294");
        test(f64::EPSILON, "222044604925031e-30");
    }

    // Handle various integers
    {
        let test = |value: &str, expected: i64| {
            let mut sink = NumberSink::new();
            for b in value.bytes() {
                sink.push_byte(b);
            }
            assert_eq!(sink.i64().unwrap(), expected);
        };
        test("0", 0);
        test("10e1", 100);
        test("10.0e1", 100);
        test("10.0", 10);
        test("10e-1", 1);
        {
            let s = format!("{}", i64::MAX);
            test(&s, i64::MAX);
        }
        {
            let s = format!("{}", i64::MIN);
            test(&s, i64::MIN);
        }
    }
}

#[test]
fn number_sink_rejects() {
    // A fractional part that does not normalize away is not an integer.
    let not_int = |value: &str| {
        let mut sink = NumberSink::new();
        for b in value.bytes() {
            sink.push_byte(b);
        }
        assert!(sink.i64().is_none());
    };
    not_int("10.5");
    not_int("1e-1");
    not_int("0.25");
    // Out of the 64-bit range in either direction.
    not_int("9223372036854775808");
    not_int("-9223372036854775809");
    not_int("1e19");
}
