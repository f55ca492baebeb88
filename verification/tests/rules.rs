use site_grabber::error::GrabError;
use site_grabber::pages::are_applicable;
use site_grabber::rules::{keep_matches, process_group, TablePageRule};
use site_grabber::statement::SqlValue;

fn rule(filter: &str, action: &str, new_value: Option<&str>) -> TablePageRule {
    TablePageRule {
        id: 1,
        group_id: 1,
        priority: 1,
        filter: filter.to_string(),
        new_value: new_value.map(str::to_string),
        action: action.to_string(),
        description: None,
    }
}

fn process(filter: &str, action: &str, new_value: Option<&str>, content: &str) -> Result<String, GrabError> {
    let rule = rule(filter, action, new_value);
    assert!(rule.is_applicable());
    rule.process(content.to_string())
}

#[test]
fn rules_are_read_by_group() {
    let statement = TablePageRule::get_by_group(9);
    assert_eq!(statement.sql, "SELECT * FROM rules WHERE group_id = $1 ORDER BY priority ASC");
    assert_eq!(statement.args, vec![SqlValue::Int(9)]);
}

#[test]
fn include_keeps_each_match_on_a_line() {
    assert_eq!(process("[0-9]+", "include", None, "a1b22c").as_deref(), Ok("1\n22"));
    assert_eq!(process("x*", "include", None, "axxbx").as_deref(), Ok("xx\nx"));
    assert_eq!(process("z", "include", Some("ignored"), "abc").as_deref(), Ok(""));
    assert_eq!(process("é+", "include", None, "aééb☃é").as_deref(), Ok("éé\né"));
}

#[test]
fn exclude_replaces_each_match() {
    assert_eq!(process("[0-9]+", "exclude", Some("#"), "a1b22c").as_deref(), Ok("a#b#c"));
    assert_eq!(process("[0-9]+", "exclude", None, "a1b22c").as_deref(), Ok("abc"));
    assert_eq!(process("(a)(b)", "exclude", Some("$2$1"), "abcab").as_deref(), Ok("bacba"));
    assert_eq!(process("z", "exclude", Some("$0$0"), "abc").as_deref(), Ok("abc"));
    assert_eq!(process("é", "exclude", Some("e"), "☃éé").as_deref(), Ok("☃ee"));
    assert_eq!(process("", "exclude", Some("-"), "ab").as_deref(), Ok("-a-b-"));
}

#[test]
fn a_filter_that_is_no_regular_expression() {
    assert_eq!(process("(", "include", None, "a"), Err(GrabError::InvalidFilter));
    assert_eq!(process("(", "exclude", None, "a"), Err(GrabError::InvalidFilter));
    assert_eq!(process("(", "unknown", None, "a"), Err(GrabError::InvalidFilter));
    assert!(!rule("(", "include", None).compiles());
    assert!(rule("a", "include", None).compiles());
    assert!(!rule("a", "unknown", None).is_applicable());
}

#[test]
fn matches_that_are_kept() {
    let found: Vec<String> = ["", "a", "", "b"].iter().map(|s| s.to_string()).collect();
    assert_eq!(keep_matches(&found), "a\nb");
    assert_eq!(keep_matches(&[]), "");
}

#[test]
fn rules_are_applied_one_after_another() {
    let rules = vec![
        rule("href=\"[^\"]*\"", "include", None),
        rule("href=|\"", "exclude", None),
    ];
    let content = "<a href=\"/x\">1</a> <a href=\" /y \">2</a><a href=\"\">".to_string();
    assert_eq!(process_group(&rules, vec![content]), Ok(vec!["/x".to_string(), "/y".to_string()]));
    let swapped = vec![rule("b", "exclude", Some("c")), rule("a", "exclude", Some("b"))];
    assert_eq!(process_group(&swapped, vec!["ab".to_string()]), Ok(vec!["bc".to_string()]));
    assert_eq!(
        process_group(&[], vec![" a ".to_string(), "b\n\nc".to_string()]),
        Ok(vec!["a".to_string(), "b".to_string(), "c".to_string()])
    );
    assert_eq!(process_group(&[rule("(", "include", None)], vec![]), Ok(vec![]));
}

#[test]
fn a_rule_that_fails_ends_the_group() {
    let rules = vec![rule("a", "include", None), rule("[", "include", None), rule("a", "?", None)];
    assert!(are_applicable(&rules));
    assert_eq!(process_group(&rules, vec!["a".to_string()]), Err(GrabError::InvalidFilter));
    let unknown = vec![rule("a", "include", None), rule("a", "?", None), rule("[", "include", None)];
    assert!(!are_applicable(&unknown));
}

#[test]
fn a_replacement_is_as_long_as_what_is_left_and_put_in() {
    let text = process("[0-9]", "exclude", Some("ab"), "1x2y3").unwrap();
    assert_eq!(text, "abxabyab");
    assert_eq!(text.len(), 5 - 3 + 3 * 2);
}
