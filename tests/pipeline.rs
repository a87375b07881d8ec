use logalyzer::db::{
    column_name, create_table, insert_rows_sql, row_to_db_values, select_rows_sql, DbRowValue,
};
use logalyzer::logalang::{Filter, FilterRule};
use logalyzer::parse::{ColumnDefinition, ColumnWidth, Parser, ParserInstruction};
use logalyzer::pipeline::{content_start, produce, Producer};

/// `<n>|<text>`: a number, a bar, and the message.
fn numbered() -> Parser {
    Parser::new(
        vec![
            ParserInstruction::Begin,
            ParserInstruction::SkipUntilChar('|'),
            ParserInstruction::EmitString,
            ParserInstruction::Skip(1),
            ParserInstruction::Begin,
            ParserInstruction::EmitRemainder,
        ],
        vec![
            ColumnDefinition::string("N".into(), ColumnWidth::Length(4)),
            ColumnDefinition::string("Message".into(), ColumnWidth::Percentage(100)),
        ],
    )
}

fn message_of(values: &[DbRowValue]) -> String {
    match values.last() {
        Some(DbRowValue::String(s)) => s.clone(),
        other => panic!("no message: {:?}", other),
    }
}

#[test]
fn unparseable_line_continues_the_previous_row() {
    let lines = vec!["1|first".to_string(), "\tat Some.Trace()".to_string()];
    let batches = produce(numbered(), &lines, 16);
    let total: usize = batches.iter().map(|b| b.len()).sum();
    assert_eq!(total, 1);
    let row = &batches.last().unwrap().rows()[0];
    assert_eq!(row.line, "1|first");
    assert_eq!(row.continuation, "\tat Some.Trace()");
    let values = row_to_db_values(row).unwrap();
    assert_eq!(message_of(&values), "first\tat Some.Trace()");
}

/// `<n>|<text>;<rest>`: the message is a bounded field, followed by more text.
fn bounded_message() -> Parser {
    Parser::new(
        vec![
            ParserInstruction::Begin,
            ParserInstruction::SkipUntilChar('|'),
            ParserInstruction::EmitString,
            ParserInstruction::Skip(1),
            ParserInstruction::Begin,
            ParserInstruction::SkipUntilChar(';'),
            ParserInstruction::EmitString,
        ],
        vec![
            ColumnDefinition::string("N".into(), ColumnWidth::Length(4)),
            ColumnDefinition::string("Message".into(), ColumnWidth::Length(20)),
        ],
    )
}

#[test]
fn continuation_reaches_a_bounded_last_field() {
    let lines = vec![
        "1|abc;ignored".to_string(),
        " more".to_string(),
        " and more".to_string(),
        "2|x;".to_string(),
    ];
    let batches = produce(bounded_message(), &lines, 16);
    let rows: Vec<Vec<DbRowValue>> = batches
        .iter()
        .flat_map(|b| b.rows().iter().map(|r| row_to_db_values(r).unwrap()))
        .collect();
    assert_eq!(rows.len(), 2);
    assert_eq!(message_of(&rows[0]), "abc more and more");
    assert_eq!(message_of(&rows[1]), "x");
    match &rows[0][0] {
        DbRowValue::String(n) => assert_eq!(n, "1"),
        other => panic!("unexpected {:?}", other),
    }
}

#[test]
fn producer_holds_the_last_row_until_the_next_one() {
    let mut p = Producer::new(numbered(), 2);
    assert!(p.feed_line("1|a".into()).is_none());
    assert!(p.feed_line("continued".into()).is_none());
    assert!(p.feed_line("2|b".into()).is_none());
    let full = p.feed_line("3|c".into()).expect("a full batch");
    assert_eq!(full.len(), 2);
    assert_eq!(full.rows()[0].line, "1|a");
    assert_eq!(full.rows()[0].continuation, "continued");
    assert_eq!(full.rows()[1].line, "2|b");
    assert_eq!(p.rows_parsed(), 3);
    let rest = p.finish();
    assert_eq!(rest.len(), 1);
    assert_eq!(rest.rows()[0].line, "3|c");
}

#[test]
fn line_before_any_row_is_dropped() {
    let lines = vec!["orphan".to_string(), "1|a".to_string()];
    let batches = produce(numbered(), &lines, 4);
    assert_eq!(batches.len(), 1);
    assert_eq!(batches[0].len(), 1);
    assert_eq!(batches[0].rows()[0].line, "1|a");
}

fn count_rows(n: usize, batch: usize) -> (usize, Vec<usize>) {
    let lines: Vec<String> = (0..n).map(|i| format!("{i}|message {i}")).collect();
    let batches = produce(numbered(), &lines, batch);
    let sizes: Vec<usize> = batches.iter().map(|b| b.len()).collect();
    (sizes.iter().sum(), sizes)
}

#[test]
fn every_row_arrives_once_whatever_the_batch_size() {
    let (total, sizes) = count_rows(48, 16);
    assert_eq!(total, 48);
    assert_eq!(sizes, vec![16, 16, 16]);
    let (total, sizes) = count_rows(50, 16);
    assert_eq!(total, 50);
    assert_eq!(sizes, vec![16, 16, 16, 2]);
    let (total, sizes) = count_rows(0, 16);
    assert_eq!(total, 0);
    assert_eq!(sizes, vec![0]);
    let (total, _) = count_rows(7, 1);
    assert_eq!(total, 7);
    let (total, _) = count_rows(5, 0);
    assert_eq!(total, 5);
}

#[test]
fn byte_order_mark_is_skipped() {
    assert_eq!(content_start(&[0xEF, 0xBB, 0xBF, b'1', b' ']), 3);
    assert_eq!(content_start(b"1|a"), 0);
    assert_eq!(content_start(&[0xFF, 0xFE, b'1', 0]), 2);
    assert_eq!(content_start(&[]), 0);
    assert_eq!(content_start(&[0xFF, 0xFE, 0, 0, b'1']), 4);
    assert_eq!(content_start(&[0x2B, 0x2F, 0x76, 0x38]), 4);
    assert_eq!(content_start(&[0x2B, 0x2F, 0x76, 0x41]), 0);
    assert_eq!(content_start(&[0x0E, 0xFE]), 0);
    assert_eq!(content_start(&[0xEF, 0xBB]), 0);
}

fn store(columns: &[ColumnDefinition]) -> rusqlite::Connection {
    let conn = rusqlite::Connection::open_in_memory().unwrap();
    conn.execute(&create_table(&columns.to_vec()), []).unwrap();
    conn
}

fn insert(conn: &rusqlite::Connection, rows: &[Vec<DbRowValue>]) {
    if rows.is_empty() {
        return;
    }
    let sql = insert_rows_sql(rows[0].len(), rows.len());
    let mut params: Vec<rusqlite::types::Value> = Vec::new();
    for row in rows {
        for v in row {
            params.push(match v {
                DbRowValue::String(s) => rusqlite::types::Value::Text(s.clone()),
                DbRowValue::Date(d) => rusqlite::types::Value::Integer(*d),
                DbRowValue::Integer(i) => rusqlite::types::Value::Integer(*i),
            });
        }
    }
    conn.execute(&sql, rusqlite::params_from_iter(params)).unwrap();
}

#[test]
fn load_with_one_malformed_line_stores_three_rows() {
    let parser = numbered();
    let columns = parser.columns.clone();
    let lines: Vec<String> = vec![
        "1|starting".into(),
        "2|failed to open".into(),
        "   caused by: missing file".into(),
        "3|done".into(),
    ];
    let conn = store(&columns);
    for batch in produce(parser, &lines, 2) {
        let rows: Vec<Vec<DbRowValue>> =
            batch.rows().iter().map(|r| row_to_db_values(r).unwrap()).collect();
        insert(&conn, &rows);
    }
    let count: i64 = conn.query_row("SELECT count(*) FROM row", [], |r| r.get(0)).unwrap();
    assert_eq!(count, 3);
    let message: String = conn
        .query_row("SELECT Column1 FROM row WHERE id = 2", [], |r| r.get(0))
        .unwrap();
    assert_eq!(message, "failed to open   caused by: missing file");

    let filters = vec![FilterRule {
        column_name: column_name(1),
        rules: Filter::ContainsString("caused".into()),
    }];
    let mut stmt = conn.prepare(&select_rows_sql(&filters)).unwrap();
    let ids: Vec<i64> = stmt
        .query_map([300i64, 0i64], |r| r.get(0))
        .unwrap()
        .map(|r| r.unwrap())
        .collect();
    assert_eq!(ids, vec![2]);
}

#[test]
fn schema_and_insert_text() {
    let cols = vec![
        ColumnDefinition::date("D".into(), ColumnWidth::Length(1)),
        ColumnDefinition::string("S".into(), ColumnWidth::Length(1)),
    ];
    assert_eq!(
        create_table(&cols),
        "CREATE TABLE IF NOT EXISTS row (id INTEGER not null primary key, Column0 INTEGER not null, Column1 TEXT not null)"
    );
    assert_eq!(insert_rows_sql(2, 3), "INSERT INTO row VALUES (NULL,?,?),(NULL,?,?),(NULL,?,?)");
    assert_eq!(insert_rows_sql(1, 1), "INSERT INTO row VALUES (NULL,?)");
    assert_eq!(column_name(12), "Column12");
    assert_eq!(column_name(0), "Column0");
}
