use gdynya::CrateName;
use gdynya::CrateNameParseError;

#[test]
fn parse_keeps_original_and_normalizes_underscores() {
    let n = CrateName::parse("serde_json").unwrap();
    assert_eq!(n.original(), "serde_json");
    assert_eq!(n.normalized(), "serde-json");
}

#[test]
fn parse_accepts_plain_name() {
    let n = CrateName::parse("serde").unwrap();
    assert_eq!(n.original(), "serde");
    assert_eq!(n.normalized(), "serde");
}

#[test]
fn parse_accepts_digits_and_dashes_after_first() {
    let n = CrateName::parse("a1-b2_c3").unwrap();
    assert_eq!(n.original(), "a1-b2_c3");
    assert_eq!(n.normalized(), "a1-b2-c3");
}

#[test]
fn parse_rejects_empty() {
    assert_eq!(CrateName::parse("").unwrap_err(), CrateNameParseError::Empty);
}

#[test]
fn parse_rejects_leading_digit() {
    assert_eq!(CrateName::parse("1password").unwrap_err(), CrateNameParseError::FirstChar);
}

#[test]
fn parse_rejects_leading_dash() {
    assert_eq!(CrateName::parse("-abc").unwrap_err(), CrateNameParseError::FirstChar);
}

#[test]
fn parse_rejects_bad_rest_character() {
    assert_eq!(CrateName::parse("ab!c").unwrap_err(), CrateNameParseError::RestChar);
    assert_eq!(CrateName::parse("ab c").unwrap_err(), CrateNameParseError::RestChar);
    assert_eq!(CrateName::parse("ab/c").unwrap_err(), CrateNameParseError::RestChar);
}

#[test]
fn equality_considers_both_spellings() {
    let snake = CrateName::parse("my_crate").unwrap();
    let kebab = CrateName::parse("my-crate").unwrap();
    // The two collide on the storage key but are distinct values.
    assert_eq!(snake.normalized(), kebab.normalized());
    assert_ne!(snake, kebab);
    assert_eq!(snake, CrateName::parse("my_crate").unwrap());
}

#[test]
fn parse_accepts_unicode_letters() {
    let n = CrateName::parse("héllo").unwrap();
    assert_eq!(n.original(), "héllo");
    assert_eq!(n.normalized(), "héllo");
}
