use cuke_runner::tag::{evaluate, parse_tag_expression, TagExpr};

fn tags(names: &[&str]) -> Vec<String> {
    names.iter().map(|n| n.to_string()).collect()
}

fn eval(expr: &str, scenario_tags: &[&str]) -> bool {
    let parsed = parse_tag_expression(expr).expect("expression should parse");
    evaluate(&parsed, &tags(scenario_tags))
}

#[test]
fn empty_expression_is_true_for_every_scenario() {
    assert!(eval("", &[]));
    assert!(eval("", &["@a"]));
    assert!(eval("   ", &["@a", "@b"]));
}

#[test]
fn single_tag_checks_membership() {
    assert!(eval("@db", &["@db"]));
    assert!(!eval("@db", &["@web"]));
    assert!(!eval("@db", &[]));
}

#[test]
fn not_negates() {
    assert!(!eval("not @db", &["@db"]));
    assert!(eval("not @db", &["@web"]));
}

#[test]
fn and_requires_both() {
    assert!(eval("@a and @b", &["@a", "@b"]));
    assert!(!eval("@a and @b", &["@a"]));
    assert!(!eval("@a and @b", &["@b"]));
}

#[test]
fn or_requires_one() {
    assert!(eval("@a or @b", &["@b"]));
    assert!(eval("@a or @b", &["@a"]));
    assert!(!eval("@a or @b", &["@c"]));
}

#[test]
fn parentheses_group() {
    assert!(eval("not (@a or @b)", &["@c"]));
    assert!(!eval("not (@a or @b)", &["@a"]));
    assert!(eval("(@a or @b) and @c", &["@b", "@c"]));
    assert!(!eval("(@a or @b) and @c", &["@b"]));
}

#[test]
fn and_binds_tighter_than_or() {
    // @a or (@b and @c)
    assert!(eval("@a or @b and @c", &["@a"]));
    assert!(!eval("@a or @b and @c", &["@b"]));
    assert!(eval("@a or @b and @c", &["@b", "@c"]));
}

#[test]
fn double_negation() {
    assert!(eval("not not @a", &["@a"]));
    assert!(!eval("not not @a", &[]));
}

#[test]
fn malformed_expressions_are_rejected() {
    assert!(parse_tag_expression("and").is_none());
    assert!(parse_tag_expression("@a and").is_none());
    assert!(parse_tag_expression("(@a").is_none());
    assert!(parse_tag_expression("@a)").is_none());
    assert!(parse_tag_expression("@a @b").is_none());
    assert!(parse_tag_expression("not").is_none());
}

#[test]
fn keywords_are_not_tags() {
    let parsed = parse_tag_expression("@or").expect("a tag named @or is fine");
    assert!(matches!(parsed, TagExpr::Tag(_)));
    assert!(evaluate(&parsed, &tags(&["@or"])));
}
