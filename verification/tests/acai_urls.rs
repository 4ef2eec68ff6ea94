use social_context::acai::{extract_acai_url, AcaiUrl, TripleParsed, UriTag};
use social_context::inputs::Triple;

#[test]
fn url_parses_two_segments() {
    let url = AcaiUrl::try_from(&"lang://expression".to_string()).unwrap();
    assert_eq!(url.language, "lang");
    assert_eq!(url.expression, "expression");
    assert_eq!(url.to_url(), "lang://expression");
}

#[test]
fn url_parses_three_segments() {
    // A chunked address keeps its inner separator inside the expression.
    let url = AcaiUrl::try_from(&"chunk://lang://5".to_string()).unwrap();
    assert_eq!(url.language, "chunk");
    assert_eq!(url.expression, "lang://5");
}

#[test]
fn url_with_empty_language_parses() {
    let url = AcaiUrl::try_from(&"://x".to_string()).unwrap();
    assert_eq!(url.language, "");
    assert_eq!(url.expression, "x");
}

#[test]
fn url_rejects_missing_or_excess_separators() {
    assert!(AcaiUrl::try_from(&"no separator".to_string()).is_err());
    assert!(AcaiUrl::try_from(&"a://b://c://d".to_string()).is_err());
}

#[test]
fn strict_extraction_allows_one_separator() {
    assert_eq!(extract_acai_url(None).unwrap(), None);
    let url = extract_acai_url(Some("lang://expr".to_string())).unwrap().unwrap();
    assert_eq!(url, AcaiUrl { language: "lang".to_string(), expression: "expr".to_string() });
    assert!(extract_acai_url(Some("a://b://c".to_string())).is_err());
    assert!(extract_acai_url(Some("plain".to_string())).is_err());
}

#[test]
fn triple_parsing_is_fieldwise() {
    let parsed = TripleParsed::try_from(Triple {
        subject: Some("s-lang://s-expr".to_string()),
        object: None,
        predicate: Some("p-lang://p-expr".to_string()),
    })
    .unwrap();
    assert_eq!(parsed.subject.unwrap().language, "s-lang");
    assert!(parsed.object.is_none());
    assert_eq!(parsed.predicate.unwrap().expression, "p-expr");

    let bad = TripleParsed::try_from(Triple {
        subject: Some("no separator".to_string()),
        object: None,
        predicate: None,
    });
    assert!(bad.is_err());

    let tag = UriTag("lang://expr".to_string());
    assert_eq!(tag.0, "lang://expr");
}
