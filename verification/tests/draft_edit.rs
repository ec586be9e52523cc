use gitscribe::draft::apply_type;
use gitscribe::draft::description_part;
use gitscribe::draft::find_first_colon;
use gitscribe::draft::trim_str;
use gitscribe::draft::type_token;

#[test]
fn retype_draft_with_delimiter() {
    let out = apply_type("fix", "feat: add retry logic");
    assert_eq!(out, "fix: add retry logic");
}

#[test]
fn retype_draft_without_delimiter() {
    let out = apply_type("chore", "improve performance overall");
    assert_eq!(out, "chore: improve performance overall");
}

#[test]
fn description_after_first_colon_only() {
    assert_eq!(description_part("feat: add x: and y"), "add x: and y");
}

#[test]
fn description_is_trimmed() {
    assert_eq!(description_part("fix:   spaced out   "), "spaced out");
    assert_eq!(description_part("  bare text \n"), "bare text");
}

#[test]
fn first_colon_position() {
    assert_eq!(find_first_colon("ab:cd:e"), Some(2));
    assert_eq!(find_first_colon("no delimiter"), None);
    assert_eq!(find_first_colon(":starts"), Some(0));
}

#[test]
fn trimming_ends_only() {
    assert_eq!(trim_str("  a b  "), "a b");
    assert_eq!(trim_str("\t\nx\r "), "x");
    assert_eq!(trim_str(""), "");
    assert_eq!(trim_str("   "), "");
}

#[test]
fn trimming_matches_unicode_whitespace() {
    assert_eq!(trim_str("\u{A0}padded\u{2009}"), "padded");
    assert_eq!(trim_str("\u{3000}wide\u{3000}"), "wide");
    assert_eq!(description_part("fix:\u{A0}nbsp padded\u{A0}"), "nbsp padded");
}

#[test]
fn token_before_first_colon() {
    assert_eq!(type_token("feat: New feature"), "feat");
    assert_eq!(type_token("refactor: Code restructure"), "refactor");
    assert_eq!(type_token("plain"), "plain");
}
