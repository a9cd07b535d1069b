use orchd::attribution::{parse_attribution_style, AttributionConfig, AttributionStyle};
use std::str::FromStr;

#[test]
fn default_attribution_style() {
    assert_eq!(AttributionStyle::default(), AttributionStyle::AssistedBy);
}

#[test]
fn commit_trailer_assisted_by_format() {
    let config = AttributionConfig::default();
    let trailer = config.commit_trailer("codex");
    assert_eq!(
        trailer,
        Some("Assisted-by: codex via Othala <othala@noreply>".to_string())
    );
}

#[test]
fn commit_trailer_co_authored_by_format() {
    let mut config = AttributionConfig::default();
    config.commit_style = AttributionStyle::CoAuthoredBy;
    let trailer = config.commit_trailer("ignored");
    assert_eq!(trailer, Some("Co-Authored-By: Othala <othala@noreply>".to_string()));
}

#[test]
fn commit_trailer_none_returns_none() {
    let mut config = AttributionConfig::default();
    config.commit_style = AttributionStyle::NoAttribution;
    assert_eq!(config.commit_trailer("codex"), None);
}

#[test]
fn pr_attribution_with_generated_line() {
    let config = AttributionConfig::default();
    let attr = config.pr_attribution("codex").expect("attribution present");
    assert!(attr.contains("Assisted by codex via Othala"));
    assert!(attr.contains("Generated with Othala"));
}

#[test]
fn annotate_commit_message_appends_trailer() {
    let config = AttributionConfig::default();
    let annotated = config.annotate_commit_message("feat: improve pipeline", "gemini");
    assert!(annotated.starts_with("feat: improve pipeline\n\n"));
    assert!(annotated.contains("Assisted-by: gemini via Othala <othala@noreply>"));
}

#[test]
fn annotate_pr_body_appends_attribution() {
    let config = AttributionConfig::default();
    let annotated = config.annotate_pr_body("## Summary\n- change", "codex");
    assert!(annotated.contains("## Summary\n- change\n\n---\n"));
    assert!(annotated.contains("Assisted by codex via Othala"));
    assert!(annotated.contains("Generated with Othala"));
}

#[test]
fn attribution_style_from_str_parsing() {
    assert_eq!(
        AttributionStyle::from_str("assisted_by").expect("assisted_by parses"),
        AttributionStyle::AssistedBy
    );
    assert_eq!(
        AttributionStyle::from_str("co-authored-by").expect("co-authored-by parses"),
        AttributionStyle::CoAuthoredBy
    );
    assert_eq!(
        AttributionStyle::from_str("disabled").expect("disabled parses"),
        AttributionStyle::NoAttribution
    );
    assert!(AttributionStyle::from_str("invalid-style").is_err());
}

#[test]
fn attribution_style_display() {
    assert_eq!(AttributionStyle::AssistedBy.to_string(), "assisted-by");
    assert_eq!(AttributionStyle::CoAuthoredBy.to_string(), "co-authored-by");
    assert_eq!(AttributionStyle::NoAttribution.to_string(), "none");
}

#[test]
fn parse_style_trims_and_lowercases() {
    assert_eq!(parse_attribution_style("  OFF \n"), Ok(AttributionStyle::NoAttribution));
    assert_eq!(
        parse_attribution_style(" Bogus "),
        Err("invalid attribution style: 'bogus'. valid: assisted-by, co-authored-by, none".to_string())
    );
}

#[test]
fn pr_attribution_absent_when_nothing_to_say() {
    let mut config = AttributionConfig::default();
    config.pr_style = AttributionStyle::NoAttribution;
    config.add_generated_line = false;
    assert_eq!(config.pr_attribution("m"), None);
    assert_eq!(config.annotate_pr_body("body  ", "m"), "body  ");
}

#[test]
fn pr_attribution_exact_text() {
    let mut config = AttributionConfig::default();
    config.pr_style = AttributionStyle::CoAuthoredBy;
    assert_eq!(
        config.pr_attribution("m"),
        Some("Co-authored with Othala\nGenerated with Othala".to_string())
    );
    assert_eq!(
        config.annotate_commit_message("msg \n", "m"),
        "msg\n\nAssisted-by: m via Othala <othala@noreply>"
    );
}

#[test]
fn every_style_label_parses_back() {
    for s in [AttributionStyle::AssistedBy, AttributionStyle::CoAuthoredBy, AttributionStyle::NoAttribution] {
        assert_eq!(parse_attribution_style(s.as_str()), Ok(s));
        assert_eq!(s.to_string(), s.as_str());
    }
}
