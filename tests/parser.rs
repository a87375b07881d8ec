use logalyzer::config::LogFormatConfiguration;
use logalyzer::config::LogFormatInstruction::{
    Begin, EmitDate, EmitEnumeration, EmitRemainder, EmitString, Skip, SkipUntilChar,
    SkipUntilString,
};
use logalyzer::datetime::{parse_date_parts, parse_datetime, DateTimeParts};
use logalyzer::db::{row_to_db_values, DbRowValue};
use logalyzer::parse::{
    ColumnDefinition, ColumnType, ColumnWidth, ParseError, ParsedRowValue, Parser,
    ParserInstruction, Row,
};

fn levels() -> Vec<String> {
    ["TRACE", "DEBUG", "INFO", "WARN", "ERROR", "FATAL"].iter().map(|s| s.to_string()).collect()
}

fn log4net() -> LogFormatConfiguration {
    LogFormatConfiguration {
        title: "Log4Net (AXIS)".into(),
        syntax: vec![
            Begin,
            Skip(23),
            EmitDate { name: "Date".into(), width: 23 },
            Skip(2),
            Begin,
            SkipUntilChar(' '),
            EmitEnumeration { name: "Level".into(), width: 5, enumerations: levels() },
            SkipUntilChar('['),
            Skip(1),
            Begin,
            SkipUntilChar(']'),
            EmitString { name: "Context".into(), width: 5 },
            SkipUntilChar('['),
            Skip(1),
            Begin,
            SkipUntilChar(']'),
            EmitString { name: "Thread".into(), width: 5 },
            Skip(2),
            Begin,
            SkipUntilChar(','),
            EmitString { name: "File".into(), width: 5 },
            Skip(3),
            Begin,
            SkipUntilString(" <".into()),
            EmitString { name: "Method".into(), width: 5 },
            Skip(2),
            Begin,
            SkipUntilChar('>'),
            EmitString { name: "Object".into(), width: 5 },
            SkipUntilChar('-'),
            Skip(2),
            Begin,
            EmitRemainder { name: "Message".into(), width: -1 },
        ],
    }
}

const LINE: &str = "2023-12-04 01:12:30,690 [INFO  [ctx] [12] File.cs,  Method <Obj> - hello world";

fn texts(row: &Row) -> Vec<DbRowValue> {
    row_to_db_values(row).expect("readable values")
}

fn text_at(values: &[DbRowValue], i: usize) -> String {
    match &values[i] {
        DbRowValue::String(s) => s.clone(),
        other => panic!("not a string: {:?}", other),
    }
}

#[test]
fn well_formed_line_gives_one_value_per_column() {
    let parser = Parser::from_config(log4net());
    assert_eq!(parser.columns.len(), 8);
    let row = parser.parse_line(LINE.to_string()).ok().expect("line parses");
    let values = row.values.as_slice();
    assert_eq!(values.len(), parser.columns.len());
    for (v, c) in values.iter().zip(parser.columns.iter()) {
        let fits = match (v, &c.column_type) {
            (ParsedRowValue::String { .. }, ColumnType::String) => true,
            (ParsedRowValue::Date(_), ColumnType::Date) => true,
            (ParsedRowValue::Integer(_), ColumnType::Enumeration(_)) => true,
            _ => false,
        };
        assert!(fits);
    }
    assert_eq!(values[0], ParsedRowValue::Date(1701652350690));
    assert_eq!(values[1], ParsedRowValue::Integer(2));
    assert_eq!(values[7], ParsedRowValue::String { start: 67, end: -1 });
    let cells = texts(&row);
    assert_eq!(text_at(&cells, 2), "ctx");
    assert_eq!(text_at(&cells, 3), "12");
    assert_eq!(text_at(&cells, 4), "File.cs");
    assert_eq!(text_at(&cells, 5), "Method");
    assert_eq!(text_at(&cells, 6), "Obj");
    assert_eq!(text_at(&cells, 7), "hello world");
    assert_eq!(row.line, LINE);
}

#[test]
fn columns_follow_the_format() {
    let parser = Parser::from_config(log4net());
    let names: Vec<&str> = parser.columns.iter().map(|c| c.nice_name.as_str()).collect();
    assert_eq!(names, ["Date", "Level", "Context", "Thread", "File", "Method", "Object", "Message"]);
    assert_eq!(parser.columns[0].column_width, ColumnWidth::Length(23));
    assert_eq!(parser.columns[7].column_width, ColumnWidth::Percentage(100));
    match &parser.columns[1].column_type {
        ColumnType::Enumeration(labels) => assert_eq!(labels, &levels()),
        _ => panic!("level column is an enumeration"),
    }
}

#[test]
fn parsing_is_deterministic() {
    let parser = Parser::from_config(log4net());
    let a = parser.parse_line(LINE.to_string()).ok().unwrap();
    let b = parser.parse_line(LINE.to_string()).ok().unwrap();
    assert_eq!(a.values.as_slice(), b.values.as_slice());
    let e1 = parser.parse_line("garbage".to_string()).err().unwrap();
    let e2 = parser.parse_line("garbage".to_string()).err().unwrap();
    assert_eq!(e1.error, e2.error);
    assert_eq!(e1.line, "garbage");
}

fn level_parser() -> Parser {
    Parser::new(
        vec![ParserInstruction::Begin, ParserInstruction::SkipUntilChar(' '), ParserInstruction::EmitEnumeration(levels())],
        vec![ColumnDefinition::enumeration("Level".into(), ColumnWidth::Length(5), levels())],
    )
}

#[test]
fn every_label_reads_as_its_index() {
    let parser = level_parser();
    for (i, label) in levels().iter().enumerate() {
        let row = parser.parse_line(format!("{label} rest")).ok().unwrap();
        assert_eq!(row.values.as_slice(), &[ParsedRowValue::Integer(i as i64)]);
    }
    for other in ["info", "INFOS", "", "WARN2"] {
        let e = parser.parse_line(format!("{other} rest")).err().unwrap();
        assert_eq!(e.error, ParseError::UnknownEnumValue);
    }
}

#[test]
fn timestamp_reads_the_same_every_time() {
    let text = "2023-12-04 01:12:30,690";
    assert_eq!(parse_datetime(text.as_bytes()), Some(1701652350690));
    assert_eq!(parse_datetime(text.as_bytes()), Some(1701652350690));
    let p = parse_date_parts(text.as_bytes()).unwrap();
    assert_eq!(
        p,
        DateTimeParts { year: 2023, month: 12, day: 4, hour: 1, minute: 12, second: 30, millis: 690 }
    );
    let again = format!(
        "{:04}-{:02}-{:02} {:02}:{:02}:{:02},{:03}",
        p.year, p.month, p.day, p.hour, p.minute, p.second, p.millis
    );
    assert_eq!(again, text);
}

#[test]
fn timestamps_that_name_no_instant_fail() {
    assert_eq!(parse_datetime(b"2024-02-29 00:00:00,000"), Some(1709164800000));
    assert_eq!(parse_datetime(b"2023-02-29 00:00:00,000"), None);
    assert_eq!(parse_datetime(b"2023-13-01 00:00:00,000"), None);
    assert_eq!(parse_datetime(b"2023-12-04 24:00:00,000"), None);
    assert_eq!(parse_datetime(b"2023-12-04 01:12:30.690"), None);
    assert_eq!(parse_datetime(b"2023-12-4 01:12:30,690"), None);
    assert_eq!(parse_datetime(b"2023-12-04 01:1a:30,690"), None);
    assert_eq!(parse_datetime(b"1970-01-01 00:00:00,000"), Some(0));
}

#[test]
fn each_parse_error_has_its_input() {
    let skip = Parser::new(vec![ParserInstruction::Skip(10)], vec![]);
    assert_eq!(skip.parse_line("short".into()).err().unwrap().error, ParseError::OutOfBounds);

    let until = Parser::new(vec![ParserInstruction::SkipUntilString("::".into())], vec![]);
    assert_eq!(until.parse_line("a:b".into()).err().unwrap().error, ParseError::DelimiterNotFound);

    let date = Parser::new(
        vec![ParserInstruction::Begin, ParserInstruction::Skip(23), ParserInstruction::EmitDate],
        vec![ColumnDefinition::date("Date".into(), ColumnWidth::Length(23))],
    );
    assert_eq!(
        date.parse_line("2023-12-04 01:12:30;690 x".into()).err().unwrap().error,
        ParseError::InvalidDate
    );

    let split = Parser::new(
        vec![ParserInstruction::Begin, ParserInstruction::Skip(1), ParserInstruction::EmitString],
        vec![ColumnDefinition::string("S".into(), ColumnWidth::Length(1))],
    );
    assert_eq!(split.parse_line("é".into()).err().unwrap().error, ParseError::SplitsCharacter);
    assert!(split.parse_line("ab".into()).is_ok());
}

#[test]
fn delimiters_may_be_multibyte() {
    let p = Parser::new(
        vec![
            ParserInstruction::SkipUntilChar('→'),
            ParserInstruction::Skip(3),
            ParserInstruction::Begin,
            ParserInstruction::EmitRemainder,
        ],
        vec![ColumnDefinition::string("Rest".into(), ColumnWidth::Percentage(100))],
    );
    let row = p.parse_line("ab→cd".to_string()).ok().unwrap();
    assert_eq!(row.values.as_slice(), &[ParsedRowValue::String { start: 5, end: -1 }]);
    assert_eq!(text_at(&texts(&row), 0), "cd");
}
