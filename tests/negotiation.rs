use npm_expansions::accept_header_handler::{best_match, ensure_quality_value, fitness_of_mime_type};
use npm_expansions::quality::Quality;
use npm_expansions::npm_expansion_error::NpmErrorKind;

fn range(entries: &[(&str, &str, &str)]) -> Vec<(String, String, Quality)> {
    entries.iter().map(|(t, s, q)| (t.to_string(), s.to_string(), Quality::parse(q))).collect()
}

fn q(exponent: i128, digits: &str) -> Quality {
    Quality { positive: true, exponent, digits: digits.chars().collect() }
}

fn typed(t: &str, s: &str, quality: Quality) -> (String, String, Quality) {
    (t.to_string(), s.to_string(), quality)
}

#[test]
fn accept_header_handler_exact_match() {
    assert_eq!(
        best_match(Vec::from(["text/plain", "text/*"]), "application/json, text/plain").unwrap(),
        "text/plain"
    );
}

#[test]
fn accept_header_handler_generic_type_match() {
    assert_eq!(
        best_match(Vec::from(["text/plain", "text/*"]), "application/json, */plain").unwrap(),
        "text/plain"
    );
}

#[test]
fn accept_header_handler_generic_subtype_match() {
    assert_eq!(
        best_match(Vec::from(["text/plain", "text/*"]), "application/json, text/*").unwrap(),
        "text/*"
    );
}

#[test]
fn accept_header_handler_no_match() {
    assert_eq!(
        best_match(Vec::from(["text/plain", "text/*"]), "application/json, image/jpeg").unwrap(),
        ""
    );
}

#[test]
fn accept_header_handler_no_supported_mime_types() {
    assert_eq!(best_match(Vec::from([]), "application/json, image/jpeg").unwrap(), "");
}

#[test]
fn accept_header_handler_no_accept_header() {
    assert_eq!(best_match(Vec::from(["text/plain", ""]), "").unwrap(), "");
}

#[test]
fn accept_header_handler_invalid_supported_mime_type() {
    assert!(best_match(Vec::from(["text/"]), "application/json, image/jpeg").is_err());
}

#[test]
fn accept_header_handler_invalid_accept_header() {
    assert!(best_match(Vec::from(["text/plain"]), "application/, image/jpeg").is_err());
}

#[test]
fn best_match_exact() {
    assert_eq!(
        best_match(Vec::from(["text/plain", "text/*"]), &"application/json, text/plain".to_string()).unwrap(),
        "text/plain".to_string()
    );
}

#[test]
fn best_match_type_generic() {
    assert_eq!(
        best_match(Vec::from(["text/plain", "text/*"]), &"application/json, */plain".to_string()).unwrap(),
        "text/plain".to_string()
    );
}

#[test]
fn best_match_subtype_generic() {
    assert_eq!(
        best_match(Vec::from(["text/plain", "text/*"]), &"application/json, text/*".to_string()).unwrap(),
        "text/*".to_string()
    );
}

#[test]
fn best_match_no_match() {
    assert_eq!(
        best_match(Vec::from(["text/plain", "text/*"]), &"application/json, image/jpeg".to_string()).unwrap(),
        "".to_string()
    );
}

#[test]
fn best_match_no_supported_types() {
    assert_eq!(best_match(Vec::from([]), &"application/json, image/jpeg".to_string()).unwrap(), "".to_string());
}

#[test]
fn best_match_no_header() {
    assert_eq!(best_match(Vec::from(["text/plain", ""]), &"".to_string()).unwrap(), "".to_string());
}

#[test]
fn negative_quality() {
    assert_eq!(
        ensure_quality_value("application/json;q=-0.8").unwrap(),
        typed("application", "json", Quality::full())
    );
}

#[test]
fn greater_than_one_quality() {
    assert_eq!(
        ensure_quality_value("application/json;q=1.8").unwrap(),
        typed("application", "json", Quality::full())
    );
}

#[test]
fn no_quality() {
    assert_eq!(
        ensure_quality_value("application/json").unwrap(),
        typed("application", "json", Quality::full())
    );
}

#[test]
fn invalid_quality() {
    assert_eq!(
        ensure_quality_value("application/json;q=0.6yg").unwrap(),
        typed("application", "json", Quality::full())
    );
}

#[test]
fn invalid_mime_type() {
    assert!(ensure_quality_value("application/;q=0.6yg").is_err());
}

#[test]
fn valid_quality() {
    assert_eq!(
        ensure_quality_value("application/json;q=0.6").unwrap(),
        typed("application", "json", q(0, "6"))
    );
}

#[test]
fn accept_header_handler_half_match() {
    assert_eq!(
        fitness_of_mime_type("text/plain", &range(&[("text", "*", "1"), ("application", "json", "1")])).unwrap(),
        Quality::full()
    );
}

#[test]
fn accept_header_handler_quality_match() {
    assert_eq!(
        fitness_of_mime_type("text/plain", &range(&[("text", "plain", "0.5"), ("text", "*", "1")])).unwrap(),
        q(0, "5")
    );
}

#[test]
fn accept_header_handler_invalid_mime_range() {
    assert_eq!(fitness_of_mime_type("text/plain", &range(&[("text", "", "0.5")])).unwrap(), Quality::zero());
}

#[test]
fn fitness_of_mime_type_exact_match() {
    assert_eq!(
        fitness_of_mime_type("text/plain", &range(&[("text", "plain", "1"), ("text", "html", "1")])).unwrap(),
        Quality::full()
    );
}

#[test]
fn fitness_of_mime_type_no_match() {
    assert_eq!(fitness_of_mime_type("text/plain", &range(&[("text", "html", "1")])).unwrap(), Quality::zero());
}

#[test]
fn fitness_of_mime_type_half_match() {
    assert_eq!(
        fitness_of_mime_type("text/plain", &range(&[("text", "*", "1"), ("application", "json", "1")])).unwrap(),
        Quality::full()
    );
}

#[test]
fn fitness_of_mime_type_quality_match() {
    assert_eq!(
        fitness_of_mime_type("text/plain", &range(&[("text", "plain", "0.5"), ("text", "*", "1")])).unwrap(),
        q(0, "5")
    );
}

#[test]
fn fitness_of_invalid_supported_type_fails() {
    assert!(fitness_of_mime_type("text/", &range(&[("text", "plain", "0.5"), ("text", "*", "1")])).is_err());
}

#[test]
fn quality_values_are_exact() {
    assert_eq!(Quality::parse("1"), Quality::full());
    assert_eq!(Quality::parse("1.000"), Quality::full());
    assert_eq!(Quality::parse("0.5"), q(0, "5"));
    assert_eq!(Quality::parse(".25"), q(0, "25"));
    assert_eq!(Quality::parse("0.0001"), q(-3, "1"));
    assert_eq!(Quality::parse("1e-1"), q(0, "1"));
    assert_eq!(Quality::parse("25E-2"), q(0, "25"));
    assert_eq!(Quality::parse("0"), Quality::zero());
    assert_eq!(Quality::parse("-0"), Quality::zero());
    assert_eq!(Quality::parse("+0.3"), q(0, "3"));
    assert_eq!(Quality::parse("1.5"), Quality::full());
    assert_eq!(Quality::parse("-0.5"), Quality::full());
    assert_eq!(Quality::parse(""), Quality::full());
    assert_eq!(Quality::parse("abc"), Quality::full());
    assert_eq!(Quality::parse("1e"), Quality::full());
    assert!(Quality::parse("0.5001").less_than(&Quality::parse("0.5002")));
    assert!(!Quality::parse("0.50").less_than(&Quality::parse("0.5")));
}

#[test]
fn close_qualities_are_told_apart() {
    assert_eq!(
        best_match(Vec::from(["text/html", "text/plain"]), "text/html;q=0.5002, text/plain;q=0.5001").unwrap(),
        "text/html"
    );
    assert_eq!(
        best_match(Vec::from(["text/html", "text/plain"]), "text/html;q=1e-1, text/plain;q=0.09").unwrap(),
        "text/html"
    );
}

#[test]
fn lower_quality_loses() {
    assert_eq!(
        best_match(Vec::from(["text/plain", "application/json"]), "text/plain;q=0.2, application/json;q=0.9").unwrap(),
        "application/json"
    );
    assert_eq!(best_match(Vec::from(["text/plain"]), "text/plain;q=0").unwrap(), "");
}

#[test]
fn equal_quality_picks_the_later_type() {
    assert_eq!(best_match(Vec::from(["text/plain", "text/html"]), "text/*").unwrap(), "text/html");
}

#[test]
fn negotiation_error_kinds() {
    let accept_side = best_match(Vec::from(["text/plain"]), "application/").unwrap_err();
    assert!(matches!(accept_side.kind(), NpmErrorKind::InvalidRequestMimeType));
    let server_side = best_match(Vec::from(["text/"]), "text/plain").unwrap_err();
    assert!(matches!(server_side.kind(), NpmErrorKind::SupportedMimeTypeError));
}

#[test]
fn single_type_offered_back_matches() {
    for x in ["text/plain", "application/json;v=1", "*/*", "image/png;q=0.5"] {
        assert_eq!(best_match(Vec::from([x]), x).unwrap(), x);
    }
}

#[test]
fn empty_header_matches_nothing() {
    assert_eq!(best_match(Vec::from(["text/plain", "nonsense"]), "").unwrap(), "");
}

#[test]
fn accept_negotiation_scenario() {
    assert_eq!(best_match(vec!["text/plain", "text/*"], "application/json, */plain").unwrap(), "text/plain");
    assert_eq!(best_match(vec!["text/plain", "text/*"], "application/json, text/*").unwrap(), "text/*");
    assert!(best_match(vec!["text/plain"], "application/, image/jpeg").is_err());
}
