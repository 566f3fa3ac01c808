use npm_expansions::mime_type::{format_mime_type, parse_mime_type};
use std::collections::HashMap;

fn params(p: Option<Vec<(String, String)>>) -> HashMap<String, String> {
    p.unwrap().into_iter().collect()
}

fn map(entries: &[(&str, &str)]) -> HashMap<String, String> {
    entries.iter().map(|(k, v)| (k.to_string(), v.to_string())).collect()
}

fn triple(t: &str, s: &str) -> (String, String, Option<Vec<(String, String)>>) {
    (t.to_string(), s.to_string(), None)
}

#[test]
fn parser_valid_mime() {
    assert_eq!(parse_mime_type("application/json").unwrap(), triple("application", "json"));
}

#[test]
fn parser_wild_card_type_mime() {
    assert_eq!(parse_mime_type("*/*").unwrap(), triple("*", "*"));
}

#[test]
fn parser_wild_card_subtype_mime() {
    assert_eq!(parse_mime_type("text/*").unwrap(), triple("text", "*"));
}

#[test]
fn parser_mime_with_quality() {
    let parsed_mime = parse_mime_type("text/plain;q=0.8").unwrap();
    let full_unwrapped = (parsed_mime.0, parsed_mime.1, params(parsed_mime.2));
    assert_eq!(full_unwrapped, ("text".to_string(), "plain".to_string(), map(&[("q", "0.8")])));
}

#[test]
fn mime_with_multiple_params() {
    let parsed_mime = parse_mime_type("application/signed-exchange;v=b3;q=0.7").unwrap();
    let full_unwrapped = (parsed_mime.0, parsed_mime.1, params(parsed_mime.2));
    assert_eq!(
        full_unwrapped,
        ("application".to_string(), "signed-exchange".to_string(), map(&[("v", "b3"), ("q", "0.7")]))
    );
}

#[test]
fn parser_no_type_mime() {
    assert!(parse_mime_type("/plain").is_err());
}

#[test]
fn parser_no_subtype_mime() {
    assert!(parse_mime_type("text/").is_err());
}

#[test]
fn parser_malformed_quality_mime() {
    assert!(parse_mime_type("text/plain;q0.8").is_err());
}

#[test]
fn parser_no_forward_slash() {
    assert!(parse_mime_type("text").is_err());
}

#[test]
fn accept_header_parser_valid_mime() {
    assert_eq!(parse_mime_type("application/json").unwrap(), triple("application", "json"));
}

#[test]
fn accept_header_parser_wild_card_type_mime() {
    assert_eq!(parse_mime_type("*/*").unwrap(), triple("*", "*"));
}

#[test]
fn accept_header_parser_wild_card_subtype_mime() {
    assert_eq!(parse_mime_type("text/*").unwrap(), triple("text", "*"));
}

#[test]
fn accept_header_parser_mime_with_quality() {
    let parsed_mime = parse_mime_type("text/plain;q=0.8").unwrap();
    let full_unwrapped = (parsed_mime.0, parsed_mime.1, params(parsed_mime.2));
    assert_eq!(full_unwrapped, ("text".to_string(), "plain".to_string(), map(&[("q", "0.8")])));
}

#[test]
fn accept_header_parser_no_type_mime() {
    assert!(parse_mime_type("/plain").is_err());
}

#[test]
fn accept_header_parser_no_subtype_mime() {
    assert!(parse_mime_type("text/").is_err());
}

#[test]
fn accept_header_parser_malformed_quality_mime() {
    assert!(parse_mime_type("text/plain;q0.8").is_err());
}

#[test]
fn mime_type_parser_valid_mime() {
    assert_eq!(parse_mime_type("application/json").unwrap(), triple("application", "json"));
}

#[test]
fn mime_type_parser_wild_card_type_mime() {
    assert_eq!(parse_mime_type("*/*").unwrap(), triple("*", "*"));
}

#[test]
fn mime_type_parser_wild_card_subtype_mime() {
    assert_eq!(parse_mime_type("text/*").unwrap(), triple("text", "*"));
}

#[test]
fn mime_type_parser_mime_with_quality() {
    let parsed_mime = parse_mime_type("text/plain;q=0.8").unwrap();
    let full_unwrapped = (parsed_mime.0, parsed_mime.1, params(parsed_mime.2));
    assert_eq!(full_unwrapped, ("text".to_string(), "plain".to_string(), map(&[("q", "0.8")])));
}

#[test]
fn mime_type_parser_no_type_mime() {
    assert!(parse_mime_type("/plain").is_err());
}

#[test]
fn mime_type_parser_no_subtype_mime() {
    assert!(parse_mime_type("text/").is_err());
}

#[test]
fn mime_type_parser_malformed_quality_mime() {
    assert!(parse_mime_type("text/plain;q0.8").is_err());
}

#[test]
fn mime_type_parser_no_forward_slash() {
    assert!(parse_mime_type("text").is_err());
}

#[test]
fn mime_type_is_trimmed_and_params_kept_in_order() {
    let m = parse_mime_type("  text/html;level=1;q=0.5 ").unwrap();
    assert_eq!(m.0, "text");
    assert_eq!(m.1, "html");
    assert_eq!(
        m.2.unwrap(),
        vec![("level".to_string(), "1".to_string()), ("q".to_string(), "0.5".to_string())]
    );
}

#[test]
fn mime_type_grammar_edges() {
    assert!(parse_mime_type("a/b/c").is_err());
    assert!(parse_mime_type("text/plain;=x").is_err());
    assert!(parse_mime_type("text/plain;").is_err());
    assert!(parse_mime_type("").is_err());
    let m = parse_mime_type("text/plain;a=b=c").unwrap();
    assert_eq!(m.2.unwrap(), vec![("a".to_string(), "b=c".to_string())]);
}

#[test]
fn canonical_form_round_trips() {
    for s in ["  text/html;level=1;q=0.5 ", "*/*", "application/json;v=a=b"] {
        let m = parse_mime_type(s).unwrap();
        let text = format_mime_type(&m);
        assert_eq!(text, s.trim());
        assert_eq!(parse_mime_type(&text).unwrap(), m);
    }
}
