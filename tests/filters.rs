use logalyzer::db::{compile_filters, sanitize_filter, select_rows_sql};
use logalyzer::logalang::{parse_line, to_filter_rule, Filter, FilterRule, LogalangParser};

fn contains(s: &str) -> Box<Filter> {
    Box::new(Filter::ContainsString(s.to_string()))
}

#[test]
fn sanitize_input() {
    let sql = "';DROP TABLE *;'";

    let sanitized = sanitize_filter(sql);

    assert_eq!(sanitized, "'';DROP TABLE *;''");
}

#[test]
fn test_parse_line_into_filter_rule() {
    let result = parse_line("a");

    match result {
        Ok(filter) => match filter {
            Filter::ContainsString(text) => assert_eq!(text, "a"),
            other => panic!("unexpected filter {:?}", other),
        },
        Err(e) => panic!("unexpected error {:?}", e),
    }
}

#[test]
fn filter_get_sql_contains() {
    let filter = Filter::ContainsString("blabla".into());

    assert_eq!(filter.get_sql("message"), "message LIKE '%blabla%'");
}

#[test]
fn filter_get_sql_not() {
    let filter = Filter::Not(Box::new(Filter::ContainsString("blabla".into())));

    assert_eq!(filter.get_sql("message"), "NOT (message LIKE '%blabla%')");
}

#[test]
fn filter_get_sql_and() {
    let filter = Filter::And(
        Box::new(Filter::ContainsString("lhs".into())),
        Box::new(Filter::ContainsString("rhs".into())),
    );

    assert_eq!(
        filter.get_sql("message"),
        "message LIKE '%lhs%' AND message LIKE '%rhs%'"
    );
}

#[test]
fn filter_get_sql_or() {
    let filter = Filter::Or(
        Box::new(Filter::ContainsString("lhs".into())),
        Box::new(Filter::ContainsString("rhs".into())),
    );

    assert_eq!(
        filter.get_sql("message"),
        "message LIKE '%lhs%' OR message LIKE '%rhs%'"
    );
}

#[test]
fn filter_rule_get_sql_single() {
    let filter = FilterRule {
        column_name: "message".to_string(),
        rules: Filter::ContainsString("bla".to_string()),
    };

    assert_eq!(filter.get_sql(), "WHERE message LIKE '%bla%'");
}

#[test]
fn test_to_filter_rule() {
    let result = to_filter_rule("columnName=\"A\"").unwrap();

    let expected_column_name = "columnName".to_string();

    assert_eq!(result.column_name, expected_column_name);
}

#[test]
fn filter_box_text_is_plain_text_or_an_expression() {
    match parse_line("disk full") {
        Ok(Filter::ContainsString(t)) => assert_eq!(t, "disk full"),
        other => panic!("unexpected {:?}", other),
    }
    match parse_line("") {
        Ok(Filter::ContainsString(t)) => assert_eq!(t, ""),
        other => panic!("unexpected {:?}", other),
    }
    let f = parse_line("\"a\" OR !\"b\"").unwrap();
    assert_eq!(f.get_sql("c"), "c LIKE '%a%' OR NOT (c LIKE '%b%')");
    assert!(parse_line("\"abc").is_err());
    assert!(parse_line("!").is_err());
    assert!(parse_line("a \"b\"").is_err());
}

#[test]
fn quote_in_literal_is_doubled() {
    let filter = Filter::ContainsString("a'b".into());
    assert_eq!(filter.get_sql("message"), "message LIKE '%a''b%'");
}

#[test]
fn escaped_literal_has_no_lone_quote() {
    let escaped = sanitize_filter("x'''y'");
    assert_eq!(escaped, "x''''''y''");
    let runs: Vec<usize> = escaped
        .split(|c| c != '\'')
        .map(|run| run.len())
        .collect();
    assert!(runs.iter().all(|n| n % 2 == 0));
}

#[test]
fn sanitize_leaves_text_without_quotes() {
    assert_eq!(sanitize_filter("plain text"), "plain text");
    assert_eq!(sanitize_filter(""), "");
    assert_eq!(sanitize_filter("é'ü"), "é''ü");
}

#[test]
fn empty_rule_list_has_no_where_clause() {
    assert_eq!(compile_filters(&vec![]), "");
    assert_eq!(select_rows_sql(&vec![]), "SELECT * FROM row  LIMIT ?1 OFFSET ?2");
}

#[test]
fn several_rules_are_joined_with_and() {
    let rules = vec![
        FilterRule { column_name: "Column1".into(), rules: Filter::Or(contains("a"), contains("b")) },
        FilterRule { column_name: "Column2".into(), rules: Filter::Not(contains("c")) },
    ];
    assert_eq!(
        compile_filters(&rules),
        "WHERE (Column1 LIKE '%a%' OR Column1 LIKE '%b%') AND (NOT (Column2 LIKE '%c%'))"
    );
    assert_eq!(
        select_rows_sql(&rules),
        "SELECT * FROM row WHERE (Column1 LIKE '%a%' OR Column1 LIKE '%b%') AND (NOT (Column2 LIKE '%c%')) LIMIT ?1 OFFSET ?2"
    );
}

#[test]
fn rule_with_and_chain_parses() {
    let rule = to_filter_rule(" Column3 = \"x\" AND ! \"y\" AND \"z\" ").unwrap();
    assert_eq!(rule.column_name, "Column3");
    assert_eq!(
        rule.get_sql(),
        "WHERE Column3 LIKE '%x%' AND NOT (Column3 LIKE '%y%') AND Column3 LIKE '%z%'"
    );
}

#[test]
fn rule_with_or_chain_parses() {
    let rule = to_filter_rule("level=\"WARN\" OR \"ERROR\"").unwrap();
    assert_eq!(rule.get_sql(), "WHERE level LIKE '%WARN%' OR level LIKE '%ERROR%'");
}

#[test]
fn malformed_filters_are_rejected() {
    assert!(to_filter_rule("col=\"unterminated").is_err());
    assert!(to_filter_rule("=\"x\"").is_err());
    assert!(to_filter_rule("col \"x\"").is_err());
    assert!(to_filter_rule("col=\"a\" AND \"b\" OR \"c\"").is_err());
    assert!(to_filter_rule("col=x").is_err());
    assert!(to_filter_rule("col=\"a\" trailing").is_err());
}

#[test]
fn expression_parser_reads_negation() {
    let f = LogalangParser::parse_expression("!!\"q'\"").unwrap();
    assert_eq!(f.get_sql("m"), "NOT (NOT (m LIKE '%q''%'))");
    assert!(LogalangParser::parse_expression("").is_err());
    assert!(LogalangParser::parse_expression("\"a\" AND").is_err());
}
