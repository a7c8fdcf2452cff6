use lalafell::helpers::{
    parse_mention_or_id, parse_channel_or_id, parse_role_or_id, parse_entity, EntityKind,
};
use lalafell::text::parse_u64;

#[test]
fn mention_syntax_parses() {
    let r = parse_mention_or_id("<@123456>").unwrap();
    assert_eq!(r.id, 123456);
    assert_eq!(r.kind, EntityKind::Mention);
}

#[test]
fn raw_id_parses_same() {
    let r = parse_mention_or_id("123456").unwrap();
    assert_eq!(r.id, 123456);
}

#[test]
fn nickname_mention_syntax_parses() {
    let r = parse_mention_or_id("<@!42>").unwrap();
    assert_eq!(r.id, 42);
}

#[test]
fn non_numeric_fails() {
    assert!(parse_mention_or_id("abc").is_none());
}

#[test]
fn mention_with_non_numeric_inner_fails() {
    assert!(parse_mention_or_id("<@abc>").is_none());
}

#[test]
fn empty_bracket_fails() {
    assert!(parse_mention_or_id("<@>").is_none());
}

#[test]
fn channel_syntax_parses() {
    let r = parse_channel_or_id("<#99>").unwrap();
    assert_eq!(r.id, 99);
    assert_eq!(r.kind, EntityKind::Channel);
}

#[test]
fn channel_rejects_user_mention_syntax() {
    assert!(parse_channel_or_id("<@99>").is_none());
}

#[test]
fn role_syntax_parses() {
    let r = parse_role_or_id("<@&7>").unwrap();
    assert_eq!(r.id, 7);
    assert_eq!(r.kind, EntityKind::Role);
}

#[test]
fn role_raw_id_parses() {
    let r = parse_entity(EntityKind::Role, "7001").unwrap();
    assert_eq!(r.id, 7001);
    assert_eq!(r.kind, EntityKind::Role);
}

#[test]
fn parse_u64_exact_values() {
    assert_eq!(parse_u64("0"), Some(0));
    assert_eq!(parse_u64("123456"), Some(123456));
    assert_eq!(parse_u64("18446744073709551615"), Some(u64::MAX));
}

#[test]
fn parse_u64_rejects_overflow_and_garbage() {
    assert_eq!(parse_u64("18446744073709551616"), None);
    assert_eq!(parse_u64(""), None);
    assert_eq!(parse_u64("12a"), None);
    assert_eq!(parse_u64("-1"), None);
}
