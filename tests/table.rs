use edn_tsv::ingest::{Diagnostic, Ingestor, Line, ParseError, ParseFailure};
use edn_tsv::order::str_less;
use edn_tsv::table::{cell_text, encode_table, project};
use edn_tsv::value::{render, Value};

fn kw(s: &str) -> Value {
    Value::Keyword(s.to_string())
}

fn integer(i: i64) -> Value {
    Value::Integer(i)
}

fn map(entries: Vec<(Value, Value)>) -> Line {
    Line::Parsed(Value::Dict(entries))
}

fn strings(xs: &[&str]) -> Vec<String> {
    xs.iter().map(|s| s.to_string()).collect()
}

fn read_all(lines: Vec<Line>) -> Result<Ingestor, ParseError> {
    let mut ing = Ingestor::new();
    for line in lines {
        ing.feed(line)?;
    }
    Ok(ing)
}

#[test]
fn two_records_make_header_and_rows() {
    let ing = read_all(vec![
        map(vec![(kw("a"), integer(1)), (kw("b"), integer(2))]),
        map(vec![(kw("a"), integer(3))]),
    ])
    .unwrap();
    assert_eq!(ing.header(), strings(&["a", "b"]));
    assert_eq!(ing.rows(), vec![strings(&["1", "2"]), strings(&["3", ""])]);
    assert_eq!(ing.emit(), b"a\tb\n1\t2\n3\t\n".to_vec());
}

#[test]
fn vector_line_is_skipped_with_one_warning() {
    let ing = read_all(vec![Line::Parsed(Value::Vector(vec![integer(1), integer(2), integer(3)]))]).unwrap();
    assert_eq!(ing.records.len(), 0);
    assert_eq!(ing.columns.len(), 0);
    assert_eq!(ing.rows().len(), 0);
    assert_eq!(ing.diagnostics.len(), 1);
    assert!(matches!(ing.diagnostics[0], Diagnostic::NonMap { line: 0 }));
    assert_eq!(ing.diagnostics[0].message(), "Skipping non map on line 0");
}

#[test]
fn non_map_line_reports_its_own_number() {
    let ing = read_all(vec![
        map(vec![(kw("x"), integer(1))]),
        Line::Blank,
        Line::Parsed(Value::Str("hello".to_string())),
    ])
    .unwrap();
    assert_eq!(ing.records.len(), 1);
    assert_eq!(ing.header(), strings(&["x"]));
    assert_eq!(ing.diagnostics.len(), 1);
    assert_eq!(ing.diagnostics[0].message(), "Skipping non map on line 2");
    assert_eq!(ing.next_line, 3);
}

#[test]
fn malformed_line_fails_with_number_and_offsets() {
    let mut parser = edn::parser::Parser::new("{:a }");
    let err = match parser.read() {
        Some(Err(e)) => e,
        _ => panic!("the parser accepted an incomplete map"),
    };
    let (lo, hi) = (err.lo, err.hi);
    let mut ing = Ingestor::new();
    let r = ing.feed(Line::Failed(ParseFailure { lo, hi, message: err.message }));
    let e = r.unwrap_err();
    assert_eq!(e.linenum, 0);
    let text = e.message();
    assert!(text.starts_with(&format!("0 ({}, {}): ", lo, hi)));
    assert_eq!(ing.records.len(), 0);
}

#[test]
fn failure_on_a_later_line_names_that_line() {
    let mut ing = Ingestor::new();
    ing.feed(map(vec![(kw("a"), integer(1))])).unwrap();
    ing.feed(Line::Blank).unwrap();
    let e = ing
        .feed(Line::Failed(ParseFailure { lo: 1, hi: 4, message: "bad".to_string() }))
        .unwrap_err();
    assert_eq!(e.linenum, 2);
    assert_eq!(e.message(), "2 (1, 4): bad ");
}

#[test]
fn non_keyword_key_is_reported_and_left_out() {
    let ing = read_all(vec![map(vec![
        (Value::Str("x".to_string()), integer(1)),
        (kw("b"), integer(2)),
        (integer(7), integer(3)),
    ])])
    .unwrap();
    assert_eq!(ing.header(), strings(&["b"]));
    assert_eq!(ing.rows(), vec![strings(&["2"])]);
    assert_eq!(ing.diagnostics.len(), 2);
    assert_eq!(ing.diagnostics[0].message(), "Skipping non keyword key: x");
    assert_eq!(ing.diagnostics[1].message(), "Skipping non keyword key: 7");
    assert!(matches!(&ing.diagnostics[0], Diagnostic::NonKeywordKey { line: 0, .. }));
}

#[test]
fn header_is_sorted_and_without_repeats() {
    let ing = read_all(vec![
        map(vec![(kw("b"), integer(1)), (kw("a"), integer(2))]),
        map(vec![(kw("a"), integer(3)), (kw("c"), integer(4))]),
        map(vec![(kw("ab"), integer(5)), (kw("B"), integer(6))]),
    ])
    .unwrap();
    assert_eq!(ing.header(), strings(&["B", "a", "ab", "b", "c"]));
}

#[test]
fn every_row_is_as_wide_as_the_header() {
    let ing = read_all(vec![
        map(vec![(kw("a"), integer(1))]),
        map(vec![]),
        map(vec![(kw("b"), integer(2)), (kw("c"), integer(3))]),
    ])
    .unwrap();
    let width = ing.header().len();
    assert_eq!(width, 3);
    for row in ing.rows() {
        assert_eq!(row.len(), width);
    }
    assert_eq!(ing.rows()[1], strings(&["", "", ""]));
}

#[test]
fn missing_column_gives_empty_cell() {
    let es = vec![(kw("a"), integer(1))];
    assert_eq!(cell_text(&es, &"a".to_string()), "1");
    assert_eq!(cell_text(&es, &"b".to_string()), "");
    let rows = project(&strings(&["b", "a"]), &vec![es]);
    assert_eq!(rows, vec![strings(&["", "1"])]);
}

#[test]
fn render_covers_every_variant() {
    assert_eq!(render(&Value::Nil), "nil");
    assert_eq!(render(&Value::Boolean(true)), "true");
    assert_eq!(render(&Value::Boolean(false)), "false");
    assert_eq!(render(&Value::Str("a b".to_string())), "a b");
    assert_eq!(render(&Value::Char('z')), "z");
    assert_eq!(render(&Value::Symbol("sym".to_string())), "sym");
    assert_eq!(render(&kw("key")), "key");
    assert_eq!(render(&integer(-42)), "-42");
    assert_eq!(render(&Value::Float("1.5".to_string())), "1.5");
    assert_eq!(render(&Value::List(vec![integer(1), integer(2)])), "(1,2)");
    assert_eq!(render(&Value::Vector(vec![integer(1), Value::Nil, kw("k")])), "[1,nil,k]");
    assert_eq!(render(&Value::Dict(vec![(kw("a"), integer(1)), (kw("b"), integer(2))])), "{a 1,b 2}");
    assert_eq!(render(&Value::SetOf(vec![integer(3)])), "#{3}");
    assert_eq!(
        render(&Value::Tagged("inst".to_string(), Box::new(Value::Str("2020".to_string())))),
        "#inst 2020"
    );
    assert_eq!(render(&Value::List(vec![])), "()");
    assert_eq!(render(&Value::Dict(vec![])), "{}");
}

#[test]
fn render_nests_and_repeats() {
    let v = Value::Vector(vec![
        Value::List(vec![integer(1), Value::SetOf(vec![])]),
        Value::Dict(vec![(kw("x"), Value::Vector(vec![integer(2), integer(3)]))]),
    ]);
    let first = render(&v);
    assert_eq!(first, "[(1,#{}),{x [2,3]}]");
    assert_eq!(render(&v), first);
}

#[test]
fn integers_render_in_full() {
    assert_eq!(render(&integer(0)), "0");
    assert_eq!(render(&integer(1234567890)), "1234567890");
    assert_eq!(render(&integer(i64::MAX)), "9223372036854775807");
    assert_eq!(render(&integer(i64::MIN)), "-9223372036854775808");
}

#[test]
fn nested_value_fills_one_cell() {
    let ing = read_all(vec![map(vec![(kw("v"), Value::Vector(vec![integer(1), integer(2)]))])]).unwrap();
    assert_eq!(ing.rows(), vec![strings(&["[1,2]"])]);
    assert_eq!(ing.emit(), b"v\n[1,2]\n".to_vec());
}

#[test]
fn cells_with_tabs_or_quotes_are_quoted() {
    let out = encode_table(&strings(&["a"]), &vec![strings(&["x\ty"]), strings(&["say \"hi\""])]);
    assert_eq!(out, b"a\n\"x\ty\"\n\"say \"\"hi\"\"\"\n".to_vec());
}

#[test]
fn empty_input_gives_empty_header_record() {
    let ing = read_all(vec![Line::Blank, Line::Blank]).unwrap();
    assert_eq!(ing.header().len(), 0);
    assert_eq!(ing.emit(), b"\"\"\n".to_vec());
}

#[test]
fn strings_compare_by_code_point() {
    assert!(str_less(&"a".to_string(), &"b".to_string()));
    assert!(str_less(&"a".to_string(), &"ab".to_string()));
    assert!(str_less(&"Z".to_string(), &"a".to_string()));
    assert!(!str_less(&"b".to_string(), &"ab".to_string()));
    assert!(!str_less(&"same".to_string(), &"same".to_string()));
    assert!(str_less(&"".to_string(), &"é".to_string()));
}

#[test]
fn parse_error_has_a_description() {
    let e = ParseError { linenum: 0, cause: ParseFailure { lo: 0, hi: 0, message: String::new() } };
    assert_eq!(e.description(), "Error while reading EDN");
    assert_eq!(e.message(), "0 (0, 0):  ");
}
