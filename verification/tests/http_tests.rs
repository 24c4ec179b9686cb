use reqwest::header::{HeaderName, HeaderValue};
use std::str::FromStr;
use ncp_core::http::{
    body_lines, check_header, is_header_name, is_header_value, is_json_content, needs_json_content_type, parse_custom_headers,
    redirect_step, report_sections, response_body_lines, split_header, status_class, tls_estimate,
    too_many_redirects, RedirectStep, ReportSections, StatusClass,
};

#[test]
fn header_arguments() {
    assert_eq!(split_header("Accept: text/html"), Ok(("Accept".to_string(), "text/html".to_string())));
    assert_eq!(split_header(" X-A :b:c "), Ok(("X-A".to_string(), "b:c".to_string())));
    assert_eq!(split_header("K:"), Ok(("K".to_string(), String::new())));
    assert_eq!(
        split_header("nocolon"),
        Err("Invalid header format: nocolon. Expected Key: Value".to_string())
    );
}

#[test]
fn header_lists() {
    let ok = parse_custom_headers(&vec!["A: 1".to_string(), "B:2".to_string()]).unwrap();
    assert_eq!(ok, vec![("A".to_string(), "1".to_string()), ("B".to_string(), "2".to_string())]);
    assert_eq!(
        parse_custom_headers(&vec!["A: 1".to_string(), "bad".to_string(), "worse".to_string()]),
        Err("Invalid header format: bad. Expected Key: Value".to_string())
    );
    assert_eq!(parse_custom_headers(&vec![]), Ok(vec![]));
}

#[test]
fn content_type_defaults() {
    let h = vec![("Content-Type".to_string(), "text/plain".to_string())];
    assert!(!needs_json_content_type(true, &h));
    assert!(needs_json_content_type(true, &vec![("Accept".to_string(), "x".to_string())]));
    assert!(!needs_json_content_type(false, &vec![]));
    assert!(is_json_content("application/json; charset=utf-8"));
    assert!(!is_json_content("text/html"));
}

#[test]
fn redirects() {
    assert_eq!(redirect_step(true, 301, true, 0, 10), RedirectStep::Follow);
    assert_eq!(redirect_step(true, 302, true, 10, 10), RedirectStep::TooMany);
    assert_eq!(redirect_step(false, 301, true, 0, 10), RedirectStep::Finish);
    assert_eq!(redirect_step(true, 301, false, 0, 10), RedirectStep::Finish);
    assert_eq!(redirect_step(true, 200, true, 0, 10), RedirectStep::Finish);
    assert_eq!(redirect_step(true, 399, true, 0, 0), RedirectStep::TooMany);
    assert_eq!(too_many_redirects(), "Maximum redirects reached");
}

#[test]
fn status_classes() {
    assert_eq!(status_class(200), StatusClass::Success);
    assert_eq!(status_class(299), StatusClass::Success);
    assert_eq!(status_class(404), StatusClass::ClientError);
    assert_eq!(status_class(500), StatusClass::Other);
    assert_eq!(status_class(302), StatusClass::Other);
}

#[test]
fn tls() {
    assert_eq!(tls_estimate("https"), Some(0));
    assert_eq!(tls_estimate("http"), None);
}

#[test]
fn header_names_and_values_are_checked_in_order() {
    assert_eq!(check_header("X-Ok: fine"), Ok(("X-Ok".to_string(), "fine".to_string())));
    assert_eq!(check_header("Bad Name: x"), Err("invalid HTTP header name".to_string()));
    assert_eq!(check_header("X-A: bad\u{1}value"), Err("failed to parse header value".to_string()));
    assert_eq!(
        parse_custom_headers(&vec!["Bad Name: x".to_string(), "nocolon".to_string()]),
        Err("invalid HTTP header name".to_string())
    );
    assert_eq!(
        parse_custom_headers(&vec!["nocolon".to_string(), "Bad Name: x".to_string()]),
        Err("Invalid header format: nocolon. Expected Key: Value".to_string())
    );
}

#[test]
fn body_rendering() {
    let (lines, pretty) = response_body_lines("application/json", "{\"a\":1}");
    assert!(pretty);
    assert_eq!(lines, vec!["{", "  \"a\": 1", "}"]);
    let (lines, pretty) = response_body_lines("application/json", "not json\nline2");
    assert!(!pretty);
    assert_eq!(lines, vec!["not json", "line2"]);
    let (lines, pretty) = response_body_lines("text/plain", "{\"a\":1}");
    assert!(!pretty);
    assert_eq!(lines, vec!["{\"a\":1}"]);
    assert_eq!(body_lines(true, "raw", Some("x\ny".to_string())), vec!["x", "y"]);
    assert_eq!(body_lines(false, "raw", Some("x".to_string())), vec!["raw"]);
    assert!(body_lines(false, "", None).is_empty());
}

#[test]
fn report_section_choices() {
    assert_eq!(
        report_sections(1, 1, false, 0, false),
        ReportSections { average: false, chain: false, headers: false, tls: false }
    );
    assert_eq!(
        report_sections(3, 2, false, 4, true),
        ReportSections { average: true, chain: true, headers: true, tls: true }
    );
    assert!(report_sections(1, 1, true, 0, false).headers);
}

#[test]
fn header_checks_agree_with_the_http_crate() {
    let samples = [
        "", "a", "Content-Type", "X_Y", "bad name", "naïve", "x\"y", "a:b", "~!#$%&'*+-.^_`|",
        "tab\there", "del\u{7f}", "ctl\u{1}", "ünïcode value", "(paren)", "{brace}", "a/b",
    ];
    for s in samples {
        assert_eq!(is_header_name(s), HeaderName::from_str(s).is_ok(), "name {:?}", s);
        assert_eq!(is_header_value(s), HeaderValue::from_str(s).is_ok(), "value {:?}", s);
    }
    let long = "a".repeat(65535);
    assert_eq!(is_header_name(&long), HeaderName::from_str(&long).is_ok());
    let too_long = "a".repeat(65536);
    assert_eq!(is_header_name(&too_long), HeaderName::from_str(&too_long).is_ok());
    for b in 0u8..128 {
        let s = (b as char).to_string();
        assert_eq!(is_header_name(&s), HeaderName::from_str(&s).is_ok(), "byte {}", b);
        assert_eq!(is_header_value(&s), HeaderValue::from_str(&s).is_ok(), "byte {}", b);
    }
}

#[test]
fn lines_agree_with_std() {
    for s in ["", "a", "a\n", "a\r\n", "a\r", "a\r\nb\r", "\r", "\n\n", "x\ry\n", "a\nb\r\n\r\n"] {
        let expected: Vec<String> = s.lines().map(|l| l.to_string()).collect();
        assert_eq!(body_lines(false, s, None), expected, "text {:?}", s);
    }
    assert_eq!(body_lines(false, "a\r\nb\r", None), vec!["a", "b\r"]);
}
