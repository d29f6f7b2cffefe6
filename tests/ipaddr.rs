use ipaddr_resolver::{
    get_ipaddr, is_ipaddrv4, parse_ipv4_literal, IpAddress, IpaddrConversionError, LookupFailure,
};

fn no_lookup(_host: &str) -> Result<Vec<IpAddress>, LookupFailure> {
    panic!("a literal address must not be looked up")
}

#[test]
fn can_identify_min_ipv4_addrs() {
    let result = is_ipaddrv4("0.0.0.0");
    assert_eq!(result, true);
}

#[test]
fn can_identify_max_ipv4_addrs() {
    let result = is_ipaddrv4("255.255.255.255");
    assert_eq!(result, true);
}

#[test]
fn can_identify_bad_ipv4_addrs() {
    let result = is_ipaddrv4("fred.barney.will.mork");
    assert_eq!(result, false);
}

#[test]
fn can_identify_out_of_bound_ipv4_addrs() {
    let result = is_ipaddrv4("256.0.0.0");
    assert_eq!(result, false);
}

#[test]
fn can_get_ipaddr_from_ip() {
    let ip = get_ipaddr("0.0.0.0", no_lookup).unwrap();
    let expect = vec![IpAddress::V4([0, 0, 0, 0])];
    assert_eq!(expect, ip);
}

#[test]
fn three_name_fields_are_rejected() {
    assert!(!is_ipaddrv4("fred.barney.will"));
}

#[test]
fn empty_string_is_rejected() {
    assert!(!is_ipaddrv4(""));
    assert_eq!(parse_ipv4_literal(""), None);
}

#[test]
fn four_digit_field_is_rejected_even_when_small() {
    assert!(!is_ipaddrv4("0000.0.0.0"));
    assert!(!is_ipaddrv4("1.2.3.0004"));
}

#[test]
fn out_of_range_fields_are_rejected_anywhere() {
    assert!(!is_ipaddrv4("1.256.3.4"));
    assert!(!is_ipaddrv4("1.2.300.4"));
    assert!(!is_ipaddrv4("1.2.3.999"));
}

#[test]
fn wrong_number_of_fields_is_rejected() {
    assert!(!is_ipaddrv4("1.2.3"));
    assert!(!is_ipaddrv4("1.2.3.4.5"));
    assert!(!is_ipaddrv4("1..2.3"));
    assert!(!is_ipaddrv4("1.2.3.4."));
    assert!(!is_ipaddrv4(".1.2.3.4"));
    assert!(!is_ipaddrv4("..."));
}

#[test]
fn surrounding_and_foreign_characters_are_rejected() {
    assert!(!is_ipaddrv4(" 1.2.3.4"));
    assert!(!is_ipaddrv4("1.2.3.4 "));
    assert!(!is_ipaddrv4("1.2.3.4\n"));
    assert!(!is_ipaddrv4("1.2.-3.4"));
    assert!(!is_ipaddrv4("1.2.3.4a"));
    assert!(!is_ipaddrv4("1.2.\u{0663}.4"));
    assert!(!is_ipaddrv4("\u{00e9}.2.3.4"));
}

#[test]
fn leading_zeros_within_three_digits_are_accepted() {
    assert!(is_ipaddrv4("01.002.3.4"));
    assert_eq!(parse_ipv4_literal("01.002.3.4"), Some([1, 2, 3, 4]));
}

#[test]
fn parse_gives_the_four_values_in_order() {
    assert_eq!(parse_ipv4_literal("192.168.1.255"), Some([192, 168, 1, 255]));
    assert_eq!(parse_ipv4_literal("10.0.200.7"), Some([10, 0, 200, 7]));
    assert_eq!(parse_ipv4_literal("256.1.1.1"), None);
}

#[test]
fn classification_is_the_same_on_every_call() {
    for s in ["0.0.0.0", "256.0.0.0", "fred.barney.will", ""] {
        let first = is_ipaddrv4(s);
        assert_eq!(first, is_ipaddrv4(s));
        assert_eq!(first, is_ipaddrv4(s));
    }
}

#[test]
fn every_octet_value_is_accepted_and_parsed() {
    for v in 0u32..256 {
        let text = format!("{}.{}.{}.{}", v, 255 - v, v / 2, 7);
        assert!(is_ipaddrv4(&text));
        let expect = [v as u8, (255 - v) as u8, (v / 2) as u8, 7];
        assert_eq!(parse_ipv4_literal(&text), Some(expect));
    }
    for v in 256u32..1000 {
        let text = format!("{}.0.0.0", v);
        assert!(!is_ipaddrv4(&text));
    }
}

#[test]
fn literal_resolves_to_its_parse_without_lookup() {
    let ip = get_ipaddr("255.255.255.255", no_lookup).unwrap();
    assert_eq!(ip, vec![IpAddress::V4([255, 255, 255, 255])]);
    let ip = get_ipaddr("10.20.30.40", no_lookup).unwrap();
    assert_eq!(ip, vec![IpAddress::V4([10, 20, 30, 40])]);
}

#[test]
fn names_are_handed_over_unchanged_and_results_kept_in_order() {
    let answer = vec![
        IpAddress::V6([0, 0, 0, 0, 0, 0, 0, 1]),
        IpAddress::V4([127, 0, 0, 1]),
        IpAddress::V4([127, 0, 0, 1]),
    ];
    let given = answer.clone();
    let ip = get_ipaddr("localhost", move |host: &str| {
        assert_eq!(host, "localhost");
        Ok(given)
    })
    .unwrap();
    assert_eq!(ip, answer);
}

#[test]
fn out_of_range_text_goes_to_the_resolver() {
    let ip = get_ipaddr("256.0.0.0", |host: &str| {
        assert_eq!(host, "256.0.0.0");
        Ok(Vec::new())
    })
    .unwrap();
    assert!(ip.is_empty());
}

#[test]
fn resolver_failures_keep_their_kind() {
    let r = get_ipaddr("no.such.host", |_: &str| {
        Err(LookupFailure::NotFound("no such host".to_string()))
    });
    assert_eq!(r, Err(IpaddrConversionError::LookupError("no such host".to_string())));
    let r = get_ipaddr("no.such.host", |_: &str| {
        Err(LookupFailure::Io("socket closed".to_string()))
    });
    assert_eq!(r, Err(IpaddrConversionError::IoError("socket closed".to_string())));
}

#[test]
fn lookup_failure_converts_to_matching_kind() {
    assert_eq!(
        LookupFailure::NotFound("x".to_string()).into_conversion_error(),
        IpaddrConversionError::LookupError("x".to_string())
    );
    assert_eq!(
        LookupFailure::Io("y".to_string()).into_conversion_error(),
        IpaddrConversionError::IoError("y".to_string())
    );
}
