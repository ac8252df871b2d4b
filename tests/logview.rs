use logview::compiler::Compiler;
use logview::datetime::DateTime;
use logview::fieldmap::FieldMap;
use logview::fields::{Fields, MalformedRecord};
use logview::ingest::LogParser;
use logview::logdata::{LogCollection, ModelIndex, WorkerAction};
use logview::number::{Number, ONE};
use logview::pattern::Pattern;
use logview::record::{parse_time, LogString};
use logview::tiers::Tier;
use logview::token::{ParseError, Token};
use logview::util::sub_strings;
use logview::value::Value;

const SCENARIO: &str = "10:00:00.000-0,EVT,0,x,a=1,a=2,b=\"hi\"\n";

fn dt(y: i32, mo: u32, d: u32, h: u32, mi: u32, s: u32, n: u32) -> DateTime {
    DateTime::new(y, mo, d, h, mi, s, n).unwrap()
}

fn num(v: i128) -> Number {
    Number { units: v * ONE }
}

fn all_pairs(text: &str) -> Result<Vec<(String, String)>, MalformedRecord> {
    let mut f = Fields::new(text.as_bytes().to_vec());
    let mut out = Vec::new();
    while let Some((k, v)) = f.parse_field()? {
        out.push((String::from_utf8(k).unwrap(), String::from_utf8(v).unwrap()));
    }
    Ok(out)
}

fn record_map(text: &str, time: DateTime) -> FieldMap {
    LogString::new(0, time, 0, text.len()).fields(text.as_bytes().to_vec()).unwrap()
}

fn is_text(v: Option<&Value>, s: &str) -> bool {
    matches!(v, Some(Value::Text(t)) if t.as_slice() == s.as_bytes())
}

fn is_number(v: Option<&Value>, n: i128) -> bool {
    matches!(v, Some(Value::Number(x)) if *x == num(n))
}

fn catch_up(c: &mut LogCollection, contents: &[Vec<u8>]) {
    loop {
        c.apply_pending();
        match c.next_to_test() {
            WorkerAction::Test(i) => c.test_next(contents[i].clone()),
            WorkerAction::Idle => break,
        }
    }
}

fn collection_of(lines: &[&str], times: &[DateTime]) -> (LogCollection, Vec<Vec<u8>>) {
    let mut c = LogCollection::new();
    let mut contents = Vec::new();
    for (i, l) in lines.iter().enumerate() {
        assert!(c.push_line(LogString::new(0, times[i], 0, l.len())));
        contents.push(l.as_bytes().to_vec());
    }
    (c, contents)
}

// Tests of the compiler.

#[test]
fn test_tokenizer() {
    let compiler = Compiler::new();
    let tokens = compiler.tokenize("WHERE date > 'now' AND date < 'now-1d'").unwrap();
    println!("{:?}", tokens);
    assert_eq!(tokens.len(), 8);
}

#[test]
fn compile_regex() {
    let compiler = Compiler::new();
    let query = compiler.compile("/John/").unwrap();
    println!("{:?}", query);
}

#[test]
fn test_regex_tokenize() {
    let compiler = Compiler::new();
    let tokens = compiler.tokenize("WHERE name = /John/ AND age > 20").unwrap();
    assert!(matches!(tokens[3], Token::Regex(_)));
}

#[test]
fn tokenize_operators_and_literals() {
    let c = Compiler::at(dt(2022, 3, 1, 0, 0, 0, 0));
    let t = c.tokenize("WHERE x <= 1.5 OR y != \"a b\" AND z >= 'now' ASC DESC ( )").unwrap();
    assert!(matches!(t[0], Token::WHERE));
    assert!(matches!(&t[1], Token::Identifier(x) if x.as_slice() == b"x"));
    assert!(matches!(t[2], Token::LE));
    assert!(matches!(t[3], Token::Number(n) if n == Number { units: 15 * ONE / 10 }));
    assert!(matches!(t[4], Token::OR));
    assert!(matches!(t[6], Token::NE));
    assert!(matches!(&t[7], Token::String(s) if s.as_slice() == b"a b"));
    assert!(matches!(t[8], Token::AND));
    assert!(matches!(t[10], Token::GE));
    assert!(matches!(t[11], Token::Date(d) if d == dt(2022, 3, 1, 0, 0, 0, 0)));
    assert!(matches!(t[12], Token::ASC));
    assert!(matches!(t[13], Token::DESC));
    assert!(matches!(t[14], Token::OpenBrace));
    assert!(matches!(t[15], Token::CloseBrace));
}

#[test]
fn relative_dates_count_back_from_now() {
    let c = Compiler::at(dt(2022, 3, 1, 0, 0, 0, 0));
    let t = c.tokenize("'now-1d' 'now-90m' 'now-2w' 'now-30s' 'now-1h'").unwrap();
    assert!(matches!(t[0], Token::Date(d) if d == dt(2022, 2, 28, 0, 0, 0, 0)));
    assert!(matches!(t[1], Token::Date(d) if d == dt(2022, 2, 28, 22, 30, 0, 0)));
    assert!(matches!(t[2], Token::Date(d) if d == dt(2022, 2, 15, 0, 0, 0, 0)));
    assert!(matches!(t[3], Token::Date(d) if d == dt(2022, 2, 28, 23, 59, 30, 0)));
    assert!(matches!(t[4], Token::Date(d) if d == dt(2022, 2, 28, 23, 0, 0, 0)));
}

#[test]
fn absolute_date_literal() {
    let c = Compiler::at(dt(2022, 3, 1, 0, 0, 0, 0));
    let t = c.tokenize("'2021-12-31 23:59:58'").unwrap();
    assert!(matches!(t[0], Token::Date(d) if d == dt(2021, 12, 31, 23, 59, 58, 0)));
}

#[test]
fn compile_errors_name_their_cause() {
    let c = Compiler::at(dt(2022, 3, 1, 0, 0, 0, 0));
    assert!(matches!(c.compile("WHERE a # 1"), Err(ParseError::UnexpectedChar(b'#'))));
    assert!(matches!(c.compile("WHERE a ="), Err(ParseError::UnexpectedEndOfInput)));
    assert!(matches!(c.compile("WHERE a = 'now+1d'"), Err(ParseError::InvalidDate)));
    assert!(matches!(c.compile("/(/"), Err(ParseError::RegexSyntax)));
    assert!(matches!(
        c.compile("WHERE a = 1234567890123456789012"),
        Err(ParseError::FloatSyntax)
    ));
    assert!(matches!(c.compile("WHERE a = '2022-13-01 00:00:00'"), Err(ParseError::TimeSyntax)));
    assert!(matches!(c.compile("bad syntax"), Err(ParseError::UnexpectedToken(_))));
    assert!(matches!(c.compile("WHERE a > /x/"), Err(ParseError::UnexpectedToken(_))));
    assert!(matches!(c.compile("/x/ WHERE a = 1"), Err(ParseError::UnexpectedToken(_))));
    assert!(matches!(c.compile("WHERE a = 'now-5y'"), Err(ParseError::UnexpectedChar(b'y'))));
    assert!(matches!(c.compile("WHERE (a = 1"), Err(ParseError::UnexpectedEndOfInput)));
}

#[test]
fn compile_twice_gives_equal_queries() {
    let c = Compiler::at(dt(2022, 3, 1, 0, 0, 0, 0));
    let text = "WHERE (a = 1 OR b = /x+/) AND t < 'now-1d'";
    let q1 = c.compile(text).unwrap();
    let q2 = c.compile(text).unwrap();
    assert!(q1.same_as(&q2));
    let q3 = c.compile("WHERE a = 2").unwrap();
    assert!(!q1.same_as(&q3));
}

#[test]
fn empty_filter_text_accepts_everything() {
    let c = Compiler::at(dt(2022, 3, 1, 0, 0, 0, 0));
    let q = c.compile("").unwrap();
    let m = record_map(SCENARIO, dt(2022, 1, 1, 0, 10, 0, 0));
    assert!(q.accept(&m));
}

// Tests of the record parser.

#[test]
fn scenario_record_fields() {
    let pairs = all_pairs(SCENARIO).unwrap();
    let expect = [
        ("time", "10:00:00.000"),
        ("duration", "0"),
        ("event", "EVT"),
        ("a", "1"),
        ("a", "2"),
        ("b", "hi"),
    ];
    assert_eq!(pairs.len(), expect.len());
    for (p, e) in pairs.iter().zip(expect.iter()) {
        assert_eq!(p.0, e.0);
        assert_eq!(p.1, e.1);
    }
    let m = record_map(SCENARIO, dt(2022, 1, 1, 0, 10, 0, 0));
    assert!(is_text(m.get(b"event"), "EVT"));
    assert!(is_text(m.get(b"b"), "hi"));
    match m.get(b"a") {
        Some(Value::Multi(items)) => {
            assert_eq!(items.len(), 2);
            assert!(is_number(Some(&items[0]), 1));
            assert!(is_number(Some(&items[1]), 2));
        }
        _ => panic!("a is not a Multi"),
    }
    assert!(matches!(m.get(b"time"), Some(Value::DateTime(d)) if *d == dt(2022, 1, 1, 0, 10, 0, 0)));
    assert_eq!(m.len(), 6);
}

#[test]
fn parsing_twice_gives_the_same_pairs() {
    assert_eq!(all_pairs(SCENARIO).unwrap(), all_pairs(SCENARIO).unwrap());
}

#[test]
fn line_end_lf_and_crlf_and_end_of_input() {
    let lf = all_pairs("1:02.5-3,E,0,x,k=v\n").unwrap();
    let crlf = all_pairs("1:02.5-3,E,0,x,k=v\r\n").unwrap();
    let eof = all_pairs("1:02.5-3,E,0,x,k=v").unwrap();
    assert_eq!(lf, crlf);
    assert_eq!(lf, eof);
    assert_eq!(lf.last().unwrap(), &("k".to_string(), "v".to_string()));
}

#[test]
fn trailing_comma_and_empty_value() {
    let p = all_pairs("1:02.5-3,E,0,x,k=,j=2,\n").unwrap();
    assert_eq!(p.len(), 5);
    assert_eq!(p[3], ("k".to_string(), "".to_string()));
    assert_eq!(p[4], ("j".to_string(), "2".to_string()));
}

#[test]
fn doubled_quotes_stand_for_one() {
    let p = all_pairs("1:02.5-3,E,0,x,q='it''s, ok',d=\"say \"\"hi\"\"\"\n").unwrap();
    assert_eq!(p[3].1, "it's, ok");
    assert_eq!(p[4].1, "say \"hi\"");
}

#[test]
fn malformed_records_are_reported() {
    assert!(all_pairs("1:02.5,E,0,x,k=v\n").is_err());
    assert!(all_pairs("1:02.5-3,E,0,x,k\n").is_err());
    assert!(all_pairs("1:02.5-3,E,0,x,k='open\n").is_err());
    assert!(all_pairs("1:02.5-3,E\n").is_err());
}

#[test]
fn consecutive_records_in_one_input() {
    let mut f = Fields::new(b"1:00.0-0,A,0,x,k=1\n2:00.0-0,B,0,x,k=2\n".to_vec());
    let mut count = 0;
    while let Some(_) = f.parse_field().unwrap() {
        count += 1;
    }
    assert_eq!(count, 4);
    assert_eq!(f.current(), 19);
    let (k, v) = f.parse_field().unwrap().unwrap();
    assert_eq!((k.as_slice(), v.as_slice()), (&b"time"[..], &b"2:00.0"[..]));
}

#[test]
fn iter_hands_out_the_pairs() {
    let mut it = Fields::new(SCENARIO.as_bytes().to_vec()).iter();
    let (k, _) = it.next().unwrap().unwrap();
    assert_eq!(k, b"time".to_vec());
}

#[test]
fn fraction_digits_choose_the_unit() {
    let hour = dt(2022, 1, 1, 5, 0, 0, 0);
    let cases: [(&str, u32); 10] = [
        ("1:02.", 0),
        ("1:02.5", 5_000_000),
        ("1:02.12", 12_000_000),
        ("1:02.123", 123_000_000),
        ("1:02.1234", 1_234_000),
        ("1:02.12345", 12_345_000),
        ("1:02.123456", 123_456_000),
        ("1:02.1234567", 1_234_567),
        ("1:02.12345678", 12_345_678),
        ("1:02.123456789", 123_456_789),
    ];
    for (text, nano) in cases.iter() {
        let t = parse_time(&hour, text.as_bytes()).unwrap();
        assert_eq!(t, dt(2022, 1, 1, 5, 1, 2, *nano));
    }
    assert!(parse_time(&hour, b"1:02.1234567890").is_none());
    assert!(parse_time(&hour, b"61:02.1").is_none());
    assert!(parse_time(&hour, b"10:00:00.000").is_none());
}

#[test]
fn numbers_are_exact_decimals() {
    assert_eq!(Number::parse(b" 42 "), Some(num(42)));
    assert_eq!(Number::parse(b"-1.25"), Some(Number { units: -125 * ONE / 100 }));
    assert_eq!(Number::parse(b"+.5"), Some(Number { units: ONE / 2 }));
    assert_eq!(Number::parse(b"7."), Some(num(7)));
    assert_eq!(Number::parse(b"abc"), None);
    assert_eq!(Number::parse(b"1e5"), None);
    assert_eq!(Number::parse(b""), None);
    assert_eq!(Number::parse(b"."), None);
}

#[test]
fn field_map_keeps_key_order_and_flattens() {
    let mut m = FieldMap::new();
    m.insert(b"x".to_vec(), Value::from_text(b"1".to_vec()));
    m.insert(b"y".to_vec(), Value::from_text(b"two".to_vec()));
    m.insert(b"x".to_vec(), Value::from_text(b"3".to_vec()));
    assert_eq!(m.key_count(), 2);
    assert_eq!(m.len(), 3);
    let (k0, v0) = m.get_index(0).unwrap();
    let (k1, v1) = m.get_index(1).unwrap();
    let (k2, v2) = m.get_index(2).unwrap();
    assert_eq!((k0.as_slice(), k1.as_slice(), k2.as_slice()), (&b"x"[..], &b"x"[..], &b"y"[..]));
    assert!(is_number(Some(v0), 1));
    assert!(is_number(Some(v1), 3));
    assert!(is_text(Some(v2), "two"));
    assert!(m.get_index(3).is_none());
    assert!(m.get(b"z").is_none());
}

// Tests of query evaluation.

#[test]
fn where_on_multi_value_matches_any_item() {
    let c = Compiler::at(dt(2022, 3, 1, 0, 0, 0, 0));
    let m = record_map(SCENARIO, dt(2022, 1, 1, 0, 10, 0, 0));
    assert!(c.compile("WHERE a = 2").unwrap().accept(&m));
    assert!(c.compile("WHERE a = 1").unwrap().accept(&m));
    assert!(!c.compile("WHERE a = 3").unwrap().accept(&m));
    assert!(!c.compile("WHERE a > 0").unwrap().accept(&m));
}

#[test]
fn relative_time_bound_accepts_history() {
    let c = Compiler::new();
    let m = record_map(SCENARIO, dt(2022, 1, 1, 0, 10, 0, 0));
    assert!(c.compile("WHERE time > 'now-1000w'").unwrap().accept(&m));
    assert!(!c.compile("WHERE time > 'now'").unwrap().accept(&m));
}

#[test]
fn free_text_search_finds_text_fields() {
    let c = Compiler::at(dt(2022, 3, 1, 0, 0, 0, 0));
    let m = record_map(SCENARIO, dt(2022, 1, 1, 0, 10, 0, 0));
    assert!(c.compile("/hi/").unwrap().accept(&m));
    assert!(c.compile("/^EV/").unwrap().accept(&m));
    assert!(!c.compile("/nothing/").unwrap().accept(&m));
    let d = record_map("1:00.0-slow,E,0,x,k=1\n", dt(2022, 1, 1, 0, 1, 0, 0));
    assert!(!c.compile("/slow/").unwrap().accept(&d));
}

#[test]
fn comparisons_need_matching_kinds() {
    let c = Compiler::at(dt(2022, 3, 1, 0, 0, 0, 0));
    let m = record_map("1:00.0-0,E,0,x,n=10,s=abc,p=proc1\n", dt(2022, 1, 1, 0, 1, 0, 0));
    assert!(c.compile("WHERE n >= 10 AND n < 10.5").unwrap().accept(&m));
    assert!(c.compile("WHERE s < \"abd\" AND s > \"ab\"").unwrap().accept(&m));
    assert!(!c.compile("WHERE n = \"10\"").unwrap().accept(&m));
    assert!(!c.compile("WHERE n != \"10\"").unwrap().accept(&m));
    assert!(c.compile("WHERE n != 11").unwrap().accept(&m));
    assert!(c.compile("WHERE p = /^proc/").unwrap().accept(&m));
    assert!(!c.compile("WHERE missing = 1").unwrap().accept(&m));
    assert!(c.compile("WHERE missing = 1 OR s = \"abc\"").unwrap().accept(&m));
    assert!(c.compile("WHERE time = '2022-01-01 00:01:00'").unwrap().accept(&m));
}

// Tests of the collection.

#[test]
fn empty_collection_has_no_rows() {
    let mut c = LogCollection::new();
    catch_up(&mut c, &[]);
    assert_eq!(c.rows(), 0);
    assert_eq!(c.cols(), 6);
    assert!(c.line(0).is_none());
}

#[test]
fn records_out_of_time_order_are_refused() {
    let mut c = LogCollection::new();
    assert!(c.push_line(LogString::new(0, dt(2022, 1, 1, 1, 0, 0, 0), 0, 1)));
    assert!(!c.push_line(LogString::new(0, dt(2022, 1, 1, 0, 0, 0, 0), 0, 1)));
    assert!(c.push_line(LogString::new(0, dt(2022, 1, 1, 1, 0, 0, 0), 0, 1)));
    assert_eq!(c.len(), 2);
}

#[test]
fn filter_selects_rows_in_order() {
    let lines = ["1:00.0-0,E,0,x,a=1\n", "2:00.0-0,E,0,x,a=2\n", "3:00.0-0,E,0,x,a=1\n"];
    let times = [dt(2022, 1, 1, 0, 1, 0, 0), dt(2022, 1, 1, 0, 2, 0, 0), dt(2022, 1, 1, 0, 3, 0, 0)];
    let (mut c, contents) = collection_of(&lines, &times);
    catch_up(&mut c, &contents);
    assert_eq!(c.rows(), 3);
    c.set_filter("WHERE a = 1").unwrap();
    catch_up(&mut c, &contents);
    assert_eq!(c.rows(), 2);
    assert_eq!(c.line(0).unwrap().time, times[0]);
    assert_eq!(c.line(1).unwrap().time, times[2]);
    assert!(c.line(0).unwrap().time.before(&c.line(1).unwrap().time));
}

#[test]
fn clearing_the_filter_shows_every_record() {
    let lines = ["1:00.0-0,E,0,x,a=1\n", "2:00.0-0,E,0,x,a=2\n"];
    let times = [dt(2022, 1, 1, 0, 1, 0, 0), dt(2022, 1, 1, 0, 2, 0, 0)];
    let (mut c, contents) = collection_of(&lines, &times);
    c.set_filter("WHERE a = 2").unwrap();
    catch_up(&mut c, &contents);
    assert_eq!(c.rows(), 1);
    c.set_filter("   ").unwrap();
    catch_up(&mut c, &contents);
    assert_eq!(c.rows(), 2);
}

#[test]
fn rejected_filter_keeps_the_previous_one() {
    let lines = ["1:00.0-0,E,0,x,a=1\n", "2:00.0-0,E,0,x,a=2\n", "3:00.0-0,E,0,x,a=1\n"];
    let times = [dt(2022, 1, 1, 0, 1, 0, 0), dt(2022, 1, 1, 0, 2, 0, 0), dt(2022, 1, 1, 0, 3, 0, 0)];
    let (mut c, contents) = collection_of(&lines, &times);
    assert!(c.set_filter("WHERE a = 1").is_ok());
    assert!(matches!(c.set_filter("bad syntax"), Err(ParseError::UnexpectedToken(_))));
    catch_up(&mut c, &contents);
    assert_eq!(c.rows(), 2);
    let before = c.rows();
    assert!(c.set_filter("WHERE (").is_err());
    assert!(!c.apply_pending());
    assert_eq!(c.rows(), before);
}

#[test]
fn same_filter_again_leaves_the_worker_alone() {
    let lines = ["1:00.0-0,E,0,x,a=1\n"];
    let times = [dt(2022, 1, 1, 0, 1, 0, 0)];
    let (mut c, contents) = collection_of(&lines, &times);
    c.set_filter("WHERE a = 1").unwrap();
    catch_up(&mut c, &contents);
    c.set_filter("WHERE a = 1").unwrap();
    assert!(!c.apply_pending());
}

#[test]
fn cells_read_through_the_record() {
    let lines = ["1:00.0-7,EVT,0,x,process=p1,OSThread=12\n"];
    let times = [dt(2022, 1, 1, 0, 1, 0, 0)];
    let (mut c, contents) = collection_of(&lines, &times);
    catch_up(&mut c, &contents);
    let time = c.data(ModelIndex::new(0, 0), contents[0].clone());
    assert!(matches!(time, Some(Value::DateTime(d)) if d == times[0]));
    assert!(is_text(c.data(ModelIndex::new(0, 1), contents[0].clone()).as_ref(), "EVT"));
    assert!(is_number(c.data(ModelIndex::new(0, 2), contents[0].clone()).as_ref(), 7));
    assert!(is_text(c.data(ModelIndex::new(0, 3), contents[0].clone()).as_ref(), "p1"));
    assert!(is_number(c.data(ModelIndex::new(0, 4), contents[0].clone()).as_ref(), 12));
    assert!(is_text(c.data(ModelIndex::new(0, 5), contents[0].clone()).as_ref(), ""));
    assert!(c.data(ModelIndex::new(0, 6), contents[0].clone()).is_none());
    assert!(c.data(ModelIndex::new(1, 0), contents[0].clone()).is_none());
    assert_eq!(c.header_data(3), Some(b"process".to_vec()));
    assert_eq!(c.header_index(b"OSThread"), Some(4));
    assert_eq!(c.header_index(b"other"), None);
}

// Tests of ingestion.

#[test]
fn file_names_give_the_hour() {
    assert_eq!(LogParser::hour_anchor(b"22010100.log"), Some(dt(2022, 1, 1, 0, 0, 0, 0)));
    assert_eq!(LogParser::hour_anchor(b"24022923.log"), Some(dt(2024, 2, 29, 23, 0, 0, 0)));
    assert_eq!(LogParser::hour_anchor(b"23022900.log"), None);
    assert_eq!(LogParser::hour_anchor(b"22010124.log"), None);
    assert_eq!(LogParser::hour_anchor(b"2201010.log"), None);
    assert_eq!(LogParser::hour_anchor(b"22010100.txt"), None);
}

#[test]
fn tiers_group_files_by_hour_in_time_order() {
    let names: Vec<Vec<u8>> = ["22010101.log", "x.log", "22010100.log", "22010101.log", "21123123.log"]
        .iter()
        .map(|s| s.as_bytes().to_vec())
        .collect();
    let tiers: Vec<Tier> = LogParser::plan_tiers(&names, None);
    assert_eq!(tiers.len(), 3);
    assert_eq!(tiers[0].anchor, dt(2021, 12, 31, 23, 0, 0, 0));
    assert_eq!(tiers[0].files, vec![4]);
    assert_eq!(tiers[1].files, vec![2]);
    assert_eq!(tiers[2].files, vec![0, 3]);
    let later = LogParser::plan_tiers(&names, Some(dt(2022, 1, 1, 1, 30, 0, 0)));
    assert_eq!(later.len(), 1);
    assert_eq!(later[0].files, vec![0, 3]);
    assert!(LogParser::plan_tiers(&Vec::new(), None).is_empty());
}

#[test]
fn two_hours_give_records_in_time_order() {
    let a = b"\xEF\xBB\xBF30:00.000-0,E,0,x,k=1\n".to_vec();
    let b = b"\xEF\xBB\xBF00:05.000-0,E,0,x,k=2\n".to_vec();
    let names = vec![b"22010101.log".to_vec(), b"22010100.log".to_vec()];
    let contents = [b, a];
    let mut c = LogCollection::new();
    for tier in LogParser::plan_tiers(&names, None) {
        let files: Vec<Vec<u8>> = tier.files.iter().map(|f| contents[*f].clone()).collect();
        for r in LogParser::merge_tier(&files, tier.anchor, None) {
            assert!(c.push_line(r));
        }
    }
    catch_up(&mut c, &[a_record(), b_record()]);
    assert_eq!(c.rows(), 2);
    assert!(c.line(0).unwrap().time.before(&c.line(1).unwrap().time));
    assert_eq!(c.line(0).unwrap().time, dt(2022, 1, 1, 0, 30, 0, 0));
    assert_eq!(c.line(1).unwrap().time, dt(2022, 1, 1, 1, 0, 5, 0));
}

fn a_record() -> Vec<u8> {
    b"30:00.000-0,E,0,x,k=1\n".to_vec()
}

fn b_record() -> Vec<u8> {
    b"00:05.000-0,E,0,x,k=2\n".to_vec()
}

#[test]
fn file_with_one_record() {
    let files = vec![b"\xEF\xBB\xBF05:00.5-1,E,0,x,k=v\n".to_vec()];
    let recs = LogParser::merge_tier(&files, dt(2022, 1, 1, 3, 0, 0, 0), None);
    assert_eq!(recs.len(), 1);
    assert_eq!(recs[0].begin(), 0);
    assert_eq!(recs[0].len(), 20);
    assert_eq!(recs[0].time, dt(2022, 1, 1, 3, 5, 0, 5_000_000));
}

#[test]
fn shards_of_one_hour_interleave() {
    let s0 = b"01:00.0-0,A,0,x,k=1\n03:00.0-0,A,0,x,k=3\n05:00.0-0,A,0,x,k=5\n".to_vec();
    let s1 = b"02:00.0-0,B,0,x,k=2\n03:00.0-0,B,0,x,k=3\n04:00.0-0,B,0,x,k=4\n".to_vec();
    let recs = LogParser::merge_tier(&vec![s0, s1], dt(2022, 1, 1, 3, 0, 0, 0), None);
    let order: Vec<(usize, u32)> = recs.iter().map(|r| (r.file, r.time.minute)).collect();
    assert_eq!(order, vec![(0, 1), (1, 2), (0, 3), (1, 3), (1, 4), (0, 5)]);
}

#[test]
fn records_before_from_are_skipped_and_reading_stops_at_bad_record() {
    let s = b"01:00.0-0,A,0,x,k=1\n03:00.0-0,A,0,x,k=3\nbroken\n05:00.0-0,A,0,x,k=5\n".to_vec();
    let recs = LogParser::merge_tier(
        &vec![s],
        dt(2022, 1, 1, 3, 0, 0, 0),
        Some(dt(2022, 1, 1, 3, 2, 0, 0)),
    );
    assert_eq!(recs.len(), 1);
    assert_eq!(recs[0].time.minute, 3);
    assert_eq!(recs[0].begin(), 20);
}

#[test]
fn empty_file_has_no_records() {
    let recs = LogParser::merge_tier(&vec![Vec::new(), b"\xEF\xBB\xBF".to_vec()], dt(2022, 1, 1, 0, 0, 0, 0), None);
    assert!(recs.is_empty());
}

// Other tests.

#[test]
fn sub_strings_wraps_and_breaks_at_line_feeds() {
    let parts = sub_strings("abcdef\ngh".as_bytes(), 4);
    let parts: Vec<String> = parts.into_iter().map(|p| String::from_utf8(p).unwrap()).collect();
    assert_eq!(parts, vec!["abcd", "ef\n", "gh"]);
    let wide = sub_strings("żółw".as_bytes(), 3);
    let wide: Vec<String> = wide.into_iter().map(|p| String::from_utf8(p).unwrap()).collect();
    assert_eq!(wide, vec!["żół", "w"]);
    assert!(sub_strings(b"", 3).is_empty());
}

#[test]
fn patterns_match_by_source() {
    let p = Pattern::new(b"h.".to_vec()).unwrap();
    assert!(p.is_match(b"oh hi"));
    assert!(!p.is_match(b"h"));
    assert_eq!(p.as_bytes().as_slice(), b"h.");
    assert!(Pattern::new(b"(".to_vec()).is_err());
}

#[test]
fn calendar_checks() {
    assert!(DateTime::new(2023, 2, 29, 0, 0, 0, 0).is_none());
    assert!(DateTime::new(2024, 2, 29, 0, 0, 0, 0).is_some());
    assert!(DateTime::new(2024, 4, 31, 0, 0, 0, 0).is_none());
    assert!(DateTime::new(2024, 1, 1, 24, 0, 0, 0).is_none());
    assert!(DateTime::new(2024, 1, 1, 23, 59, 59, 1_500_000_000).is_some());
    assert!(DateTime::new(2024, 1, 1, 23, 59, 58, 1_500_000_000).is_none());
    assert!(Compiler::new().now.year >= 2000);
}

#[test]
fn record_get_reads_the_first_value() {
    let text = "1:00.0-0,E,0,x,a=1,a=2,s=t\n";
    let time = dt(2022, 1, 1, 0, 1, 0, 0);
    let r = LogString::new(0, time, 0, text.len());
    let bytes = text.as_bytes().to_vec();
    assert!(matches!(r.get(b"time", bytes.clone()), Some(Value::DateTime(d)) if d == time));
    assert!(is_number(r.get(b"a", bytes.clone()).as_ref(), 1));
    assert!(is_text(r.get(b"s", bytes.clone()).as_ref(), "t"));
    assert!(r.get(b"zz", bytes).is_none());
    assert!(r.get(b"a", b"broken".to_vec()).is_none());
}

#[test]
fn further_values_extend_the_multi() {
    let m = record_map("1:00.0-0,E,0,x,a=1,a=x,a=3\n", dt(2022, 1, 1, 0, 1, 0, 0));
    match m.get(b"a") {
        Some(Value::Multi(items)) => {
            assert_eq!(items.len(), 3);
            assert!(is_number(Some(&items[0]), 1));
            assert!(is_text(Some(&items[1]), "x"));
            assert!(is_number(Some(&items[2]), 3));
        }
        _ => panic!("a is not a Multi"),
    }
    assert_eq!(m.key_count(), 4);
    assert_eq!(m.len(), 6);
}

#[test]
fn blank_filter_is_taken_up_by_the_worker() {
    let mut c = LogCollection::new();
    assert!(c.set_filter("").is_ok());
    assert!(c.apply_pending());
    assert!(!c.apply_pending());
    assert!(matches!(c.next_to_test(), WorkerAction::Idle));
}

#[test]
fn long_relative_dates_are_accepted_while_they_fit() {
    let c = Compiler::at(dt(2022, 3, 1, 0, 0, 0, 0));
    let t = c.tokenize("'now-1000000000000s'").unwrap();
    assert!(matches!(t[0], Token::Date(d) if d.year < -29000 && d.year > -30000));
    assert!(matches!(
        c.tokenize("'now-99999999999999999999s'"),
        Err(ParseError::InvalidDate)
    ));
    assert!(matches!(c.tokenize("'now-20000000000000w'"), Err(ParseError::InvalidDate)));
}

#[test]
fn record_offsets_count_after_the_byte_order_mark() {
    let with_mark = vec![b"\xEF\xBB\xBF05:07.123-42,CALL,3,k=1\n".to_vec()];
    let recs = LogParser::merge_tier(&with_mark, dt(2022, 1, 1, 0, 0, 0, 0), None);
    assert_eq!(recs.len(), 1);
    assert_eq!(recs[0].begin(), 0);
    assert_eq!(recs[0].len(), 24);
    assert_eq!(recs[0].time, dt(2022, 1, 1, 0, 5, 7, 123_000_000));
    let without = vec![b"05:07.123-42,CALL,3,k=1\n".to_vec()];
    let recs = LogParser::merge_tier(&without, dt(2022, 1, 1, 0, 0, 0, 0), None);
    assert_eq!(recs[0].begin(), 0);
}
