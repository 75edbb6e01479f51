use mktdt::decimal::Decimal;
use mktdt::field::classify;
use mktdt::field::table_entry;
use mktdt::field::Field;
use mktdt::field::RecordKind;
use mktdt::parser::bytes_eq;
use mktdt::parser::FeedError;
use mktdt::parser::MktdtParser;
use mktdt::snapshot::Snapshot;
use mktdt::timestamp::read_header_anchor;
use mktdt::timestamp::read_record_instant;
use mktdt::timestamp::resolve;
use mktdt::timestamp::EARLIEST_MILLIS;
use mktdt::timestamp::LATEST_MILLIS;
use mktdt::tokens::split_line;

const DAY_2024_01_02: i64 = 1_704_153_600_000;

const HEADER: &[u8] = b"HEADER|MTP1.00|1024|36|XSHG01|12345|20240102-09:15:00.000|0|";

const MD001: &[u8] = b"MD001|000001|INDEX|100|2000.5|10.10|10.20|10.30|10.00|10.25|10.26|T111|09:25:03.500";

fn packed(token: &str) -> i64 {
    Decimal::parse(token).to_i64()
}

fn md_line(id: &str, code: &str, name: &str, fields: usize, first: i64, tail: &str) -> Vec<u8> {
    let mut line = format!("{}|{}|{}", id, code, name);
    for i in 0..fields {
        line.push_str(&format!("|{}.5", first + i as i64));
    }
    line.push_str(tail);
    line.into_bytes()
}

#[test]
fn split_keeps_empty_tokens() {
    let tokens = split_line(b"a||bc|");
    assert_eq!(tokens, vec![b"a".to_vec(), b"".to_vec(), b"bc".to_vec(), b"".to_vec()]);
    assert_eq!(split_line(b""), vec![Vec::<u8>::new()]);
    assert_eq!(split_line(b"abc"), vec![b"abc".to_vec()]);
}

#[test]
fn classify_known_and_unknown() {
    assert_eq!(classify(b"HEADER"), Some(RecordKind::Header));
    assert_eq!(classify(b"MD001"), Some(RecordKind::Md001));
    assert_eq!(classify(b"MD002"), Some(RecordKind::Md002));
    assert_eq!(classify(b"MD003"), Some(RecordKind::Md003));
    assert_eq!(classify(b"MD004"), Some(RecordKind::Md004));
    assert_eq!(classify(b"MD005"), None);
    assert_eq!(classify(b"TRAILER"), None);
    assert_eq!(classify(b"header"), None);
    assert_eq!(classify(b""), None);
}

#[test]
fn field_counts() {
    assert_eq!(RecordKind::Md001.field_count(), 8);
    assert_eq!(RecordKind::Md002.field_count(), 28);
    assert_eq!(RecordKind::Md003.field_count(), 28);
    assert_eq!(RecordKind::Md004.field_count(), 30);
}

#[test]
fn table_order() {
    assert_eq!(table_entry(0), Field::Volume);
    assert_eq!(table_entry(1), Field::Amount);
    assert_eq!(table_entry(6), Field::Price);
    assert_eq!(table_entry(7), Field::ClosePrice);
    assert_eq!(table_entry(8), Field::Bid1Price);
    assert_eq!(table_entry(11), Field::Ask1Volume);
    assert_eq!(table_entry(27), Field::Ask5Volume);
    assert_eq!(table_entry(28), Field::PreIopv);
    assert_eq!(table_entry(29), Field::Iopv);
    for i in 0..30 {
        assert_eq!(table_entry(i).slot(), i);
    }
}

#[test]
fn bytes_eq_compares_contents() {
    assert!(bytes_eq(b"600000", b"600000"));
    assert!(!bytes_eq(b"600000", b"600001"));
    assert!(!bytes_eq(b"600000", b"60000"));
    assert!(bytes_eq(b"", b""));
}

#[test]
fn header_token_is_read() {
    assert_eq!(
        read_header_anchor(b"20240102-09:15:00.000"),
        Some(DAY_2024_01_02 + 33_300_000)
    );
    assert_eq!(read_header_anchor(b"19700101-00:00:01.444"), Some(1_444));
    assert_eq!(read_header_anchor(b"2024-01-02 09:15:00"), None);
    assert_eq!(read_header_anchor(b""), None);
    assert_eq!(read_header_anchor(b"20241302-09:15:00.000"), None);
}

#[test]
fn time_token_is_placed_on_the_anchor_date() {
    let anchor = DAY_2024_01_02 + 33_300_000;
    assert_eq!(
        read_record_instant(anchor, b"09:25:03.500"),
        Some(DAY_2024_01_02 + 33_903_500)
    );
    assert_eq!(read_record_instant(anchor, b"00:00:00.000"), Some(DAY_2024_01_02));
    assert_eq!(read_record_instant(anchor, b"25:00:00.000"), None);
    assert_eq!(read_record_instant(anchor, b"noon"), None);
}

#[test]
fn resolve_formula() {
    assert_eq!(
        resolve(DAY_2024_01_02 + 33_300_000, 33_903, 500_000_000),
        Some(1_704_187_503_500)
    );
    assert_eq!(resolve(0, 0, 0), Some(0));
    assert_eq!(resolve(-1, 0, 0), Some(-86_400_000));
    assert_eq!(resolve(-1, 86_399, 999_000_000), Some(-1));
    assert_eq!(resolve(86_399_999, 1, 1_999_999), Some(1_001));
}

#[test]
fn resolve_leap_second() {
    assert_eq!(resolve(0, 86_399, 1_500_000_000), Some(86_400_500));
    assert_eq!(resolve(0, 59, 1_000_000_000), Some(60_000));
    assert_eq!(read_record_instant(0, b"23:59:60.500"), Some(86_400_500));
}

#[test]
fn resolve_rejects_what_is_no_time_of_day() {
    assert_eq!(resolve(0, 86_400, 0), None);
    assert_eq!(resolve(0, 0, 2_000_000_000), None);
    assert_eq!(resolve(0, 58, 1_000_000_000), None);
}

#[test]
fn resolve_range_of_anchors() {
    assert_eq!(resolve(EARLIEST_MILLIS, 0, 0), Some(EARLIEST_MILLIS));
    assert_eq!(resolve(EARLIEST_MILLIS - 1, 0, 0), None);
    assert_eq!(resolve(LATEST_MILLIS, 86_399, 999_000_000), Some(LATEST_MILLIS));
    assert_eq!(resolve(LATEST_MILLIS + 1, 0, 0), None);
    assert_eq!(resolve(i64::MAX, 0, 0), None);
    assert_eq!(resolve(i64::MIN, 0, 0), None);
}

#[test]
fn new_parser_is_empty() {
    let p = MktdtParser::new();
    assert_eq!(p.len(), 0);
    assert!(p.get(b"000001").is_none());
    let q = MktdtParser::with_anchor(42);
    assert_eq!(q.anchor(), 42);
    assert_eq!(q.len(), 0);
}

#[test]
fn fresh_snapshot() {
    let s = Snapshot::fresh(b"600000");
    assert_eq!(s.market(), 0);
    assert_eq!(s.code(), b"600000");
    assert_eq!(s.name(), b"");
    assert_eq!(s.timestamp(), None);
    assert!(s.changed());
    for i in 0..30 {
        assert_eq!(s.field(table_entry(i)), 0);
    }
}

#[test]
fn header_sets_anchor_and_record_time_uses_its_date() {
    let mut p = MktdtParser::with_anchor(0);
    assert_eq!(p.parse_line(HEADER), Ok(()));
    assert_eq!(p.anchor(), DAY_2024_01_02 + 33_300_000);
    assert_eq!(p.parse_line(MD001), Ok(()));
    let s = p.get(b"000001").unwrap();
    assert_eq!(s.timestamp(), Some(1_704_187_503_500));
}

#[test]
fn later_header_rebases() {
    let mut p = MktdtParser::with_anchor(0);
    p.parse_line(HEADER).unwrap();
    p.parse_line(b"HEADER|a|b|c|d|e|20240103-00:00:00.000").unwrap();
    assert_eq!(p.anchor(), DAY_2024_01_02 + 86_400_000);
    p.parse_line(MD001).unwrap();
    assert_eq!(
        p.get(b"000001").unwrap().timestamp(),
        Some(DAY_2024_01_02 + 86_400_000 + 33_903_500)
    );
}

#[test]
fn short_header_changes_nothing() {
    let mut p = MktdtParser::with_anchor(7);
    assert_eq!(p.parse_line(b"HEADER|a|b|c|d|e"), Ok(()));
    assert_eq!(p.anchor(), 7);
    assert_eq!(p.parse_line(b"HEADER"), Ok(()));
    assert_eq!(p.anchor(), 7);
}

#[test]
fn malformed_header_is_fatal() {
    let mut p = MktdtParser::with_anchor(7);
    assert_eq!(
        p.parse_line(b"HEADER|a|b|c|d|e|2024/01/02 09:15|x"),
        Err(FeedError::InvalidTimestamp)
    );
    assert_eq!(p.anchor(), 7);
    assert_eq!(p.len(), 0);
}

#[test]
fn unknown_lines_are_skipped() {
    let mut p = MktdtParser::with_anchor(7);
    assert_eq!(p.parse_line(b"TRAILER|whatever"), Ok(()));
    assert_eq!(p.parse_line(b""), Ok(()));
    assert_eq!(p.parse_line(b"MD005|000001|X|1"), Ok(()));
    assert_eq!(p.len(), 0);
    assert_eq!(p.anchor(), 7);
}

#[test]
fn md001_fills_its_eight_slots_and_no_others() {
    let mut p = MktdtParser::with_anchor(0);
    p.parse_line(HEADER).unwrap();
    p.parse_line(MD001).unwrap();
    let s = p.get(b"000001").unwrap();
    assert_eq!(s.market(), 0);
    assert_eq!(s.code(), b"000001");
    assert_eq!(s.name(), b"INDEX");
    assert_eq!(s.field(Field::Volume), packed("100"));
    assert_eq!(s.field(Field::Amount), packed("2000.5"));
    assert_eq!(s.field(Field::PreClosePrice), packed("10.10"));
    assert_eq!(s.field(Field::OpenPrice), packed("10.20"));
    assert_eq!(s.field(Field::HighPrice), packed("10.30"));
    assert_eq!(s.field(Field::LowPrice), packed("10.00"));
    assert_eq!(s.field(Field::Price), packed("10.25"));
    assert_eq!(s.field(Field::ClosePrice), packed("10.26"));
    assert_eq!(s.field(Field::Amount), 20005 * 256 + 1);
    for i in 8..30 {
        assert_eq!(s.field(table_entry(i)), 0);
    }
}

#[test]
fn md001_after_md004_leaves_the_other_slots() {
    let mut p = MktdtParser::with_anchor(0);
    p.parse_line(&md_line("MD004", "510050", "ETF", 30, 100, "|T111|09:30:00.000")).unwrap();
    p.parse_line(&md_line("MD001", "510050", "ETF", 8, 500, "|T111|09:31:00.000")).unwrap();
    let s = p.get(b"510050").unwrap();
    for i in 0..8 {
        assert_eq!(s.field(table_entry(i)), packed(&format!("{}.5", 500 + i)));
    }
    for i in 8..30 {
        assert_eq!(s.field(table_entry(i)), packed(&format!("{}.5", 100 + i)));
    }
    assert_eq!(s.timestamp(), Some(9 * 3_600_000 + 31 * 60_000));
}

#[test]
fn md002_and_md003_fill_twenty_eight_slots() {
    let mut p = MktdtParser::with_anchor(0);
    p.parse_line(&md_line("MD002", "600000", "BANK", 28, 1, "|T111|09:30:00.000")).unwrap();
    p.parse_line(&md_line("MD003", "110000", "BOND", 28, 200, "|T111|09:30:01.000")).unwrap();
    assert_eq!(p.len(), 2);
    let a = p.get(b"600000").unwrap();
    let b = p.get(b"110000").unwrap();
    for i in 0..28 {
        assert_eq!(a.field(table_entry(i)), packed(&format!("{}.5", 1 + i)));
        assert_eq!(b.field(table_entry(i)), packed(&format!("{}.5", 200 + i)));
    }
    assert_eq!(a.field(Field::PreIopv), 0);
    assert_eq!(a.field(Field::Iopv), 0);
    assert_eq!(a.field(Field::Bid1Price), packed("9.5"));
    assert_eq!(a.field(Field::Ask5Volume), packed("28.5"));
}

#[test]
fn md004_fills_all_thirty_slots() {
    let mut p = MktdtParser::with_anchor(0);
    p.parse_line(&md_line("MD004", "510050", "ETF", 30, 1, "|T111|09:30:00.000")).unwrap();
    let s = p.get(b"510050").unwrap();
    assert_eq!(s.field(Field::PreIopv), packed("29.5"));
    assert_eq!(s.field(Field::Iopv), packed("30.5"));
}

#[test]
fn one_entry_per_code() {
    let mut p = MktdtParser::with_anchor(0);
    p.parse_line(&md_line("MD001", "000001", "A", 8, 1, "|T|09:30:00.000")).unwrap();
    assert_eq!(p.len(), 1);
    p.parse_line(&md_line("MD002", "000001", "A", 28, 1, "|T|09:30:00.000")).unwrap();
    assert_eq!(p.len(), 1);
    p.parse_line(&md_line("MD004", "000001", "A", 30, 1, "|T|09:30:00.000")).unwrap();
    assert_eq!(p.len(), 1);
    p.parse_line(&md_line("MD001", "000002", "B", 8, 1, "|T|09:30:00.000")).unwrap();
    assert_eq!(p.len(), 2);
    assert_eq!(p.position(b"000001"), Some(0));
    assert_eq!(p.position(b"000002"), Some(1));
    assert_eq!(p.position(b"000003"), None);
}

#[test]
fn first_name_wins() {
    let mut p = MktdtParser::with_anchor(0);
    p.parse_line(&md_line("MD001", "000001", "FIRST", 8, 1, "|T|09:30:00.000")).unwrap();
    p.parse_line(&md_line("MD001", "000001", "SECOND", 8, 1, "|T|09:30:00.000")).unwrap();
    assert_eq!(p.get(b"000001").unwrap().name(), b"FIRST");
}

#[test]
fn empty_name_is_filled_later() {
    let mut p = MktdtParser::with_anchor(0);
    p.parse_line(&md_line("MD001", "000001", "", 8, 1, "|T|09:30:00.000")).unwrap();
    assert_eq!(p.get(b"000001").unwrap().name(), b"");
    p.parse_line(&md_line("MD001", "000001", "LATE", 8, 1, "|T|09:30:00.000")).unwrap();
    assert_eq!(p.get(b"000001").unwrap().name(), b"LATE");
}

#[test]
fn name_keeps_its_bytes() {
    let mut p = MktdtParser::with_anchor(0);
    let name = "\u{4e0a}\u{8bc1}\u{6307}\u{6570}";
    p.parse_line(&md_line("MD001", "000001", name, 8, 1, "|T|09:30:00.000")).unwrap();
    assert_eq!(p.get(b"000001").unwrap().name(), name.as_bytes());
}

#[test]
fn md002_that_ends_before_its_last_field_changes_nothing() {
    let mut p = MktdtParser::with_anchor(0);
    p.parse_line(&md_line("MD002", "600000", "BANK", 28, 1, "|T111|09:30:00.000")).unwrap();
    let short = md_line("MD002", "600000", "BANK", 27, 900, "");
    assert_eq!(p.parse_line(&short), Err(FeedError::InvalidRow));
    let s = p.get(b"600000").unwrap();
    for i in 0..28 {
        assert_eq!(s.field(table_entry(i)), packed(&format!("{}.5", 1 + i)));
    }
    assert_eq!(s.timestamp(), Some(9 * 3_600_000 + 30 * 60_000));
    let fresh = md_line("MD002", "600001", "NEW", 27, 900, "");
    assert_eq!(p.parse_line(&fresh), Err(FeedError::InvalidRow));
    assert_eq!(p.len(), 1);
    assert!(p.get(b"600001").is_none());
}

#[test]
fn records_without_code_or_name_are_invalid() {
    let mut p = MktdtParser::with_anchor(0);
    assert_eq!(p.parse_line(b"MD001"), Err(FeedError::InvalidRow));
    assert_eq!(p.parse_line(b"MD001|000001"), Err(FeedError::InvalidRow));
    assert_eq!(p.parse_line(b"MD001|000001|NAME"), Err(FeedError::InvalidRow));
    assert_eq!(p.len(), 0);
}

#[test]
fn missing_time_keeps_the_timestamp() {
    let mut p = MktdtParser::with_anchor(0);
    p.parse_line(&md_line("MD001", "000001", "A", 8, 1, "")).unwrap();
    assert_eq!(p.get(b"000001").unwrap().timestamp(), None);
    p.parse_line(&md_line("MD001", "000001", "A", 8, 1, "|T|09:30:00.000")).unwrap();
    assert_eq!(p.get(b"000001").unwrap().timestamp(), Some(34_200_000));
    p.parse_line(&md_line("MD001", "000001", "A", 8, 2, "|T")).unwrap();
    assert_eq!(p.get(b"000001").unwrap().timestamp(), Some(34_200_000));
    assert_eq!(p.get(b"000001").unwrap().field(Field::Volume), packed("2.5"));
}

#[test]
fn malformed_time_is_fatal_and_changes_nothing() {
    let mut p = MktdtParser::with_anchor(0);
    p.parse_line(&md_line("MD001", "000001", "A", 8, 1, "|T|09:30:00.000")).unwrap();
    let bad = md_line("MD001", "000001", "A", 8, 50, "|T|9h30");
    assert_eq!(p.parse_line(&bad), Err(FeedError::InvalidTimestamp));
    let s = p.get(b"000001").unwrap();
    assert_eq!(s.field(Field::Volume), packed("1.5"));
    assert_eq!(s.timestamp(), Some(34_200_000));
    let other = md_line("MD001", "000009", "N", 8, 50, "|T|");
    assert_eq!(p.parse_line(&other), Err(FeedError::InvalidTimestamp));
    assert_eq!(p.len(), 1);
}

#[test]
fn anchor_without_a_date_fails_the_time() {
    let mut p = MktdtParser::with_anchor(EARLIEST_MILLIS - 1);
    let line = md_line("MD001", "000001", "A", 8, 1, "|T|09:30:00.000");
    assert_eq!(p.parse_line(&line), Err(FeedError::InvalidTimestamp));
    let mut q = MktdtParser::with_anchor(EARLIEST_MILLIS);
    assert_eq!(q.parse_line(&line), Ok(()));
    assert_eq!(q.get(b"000001").unwrap().timestamp(), Some(EARLIEST_MILLIS + 34_200_000));
}

#[test]
fn malformed_numbers_never_fail() {
    let mut p = MktdtParser::with_anchor(0);
    p.parse_line(b"MD001|000001|A|abc||-|1.2.3|--7|.|x9|12-3|T|09:30:00.000").unwrap();
    let s = p.get(b"000001").unwrap();
    assert_eq!(s.field(Field::Volume), 0);
    assert_eq!(s.field(Field::Amount), 0);
    assert_eq!(s.field(Field::PreClosePrice), 0);
    assert_eq!(s.field(Field::OpenPrice), 123 * 256 + 2);
    assert_eq!(s.field(Field::HighPrice), -7 * 256);
    assert_eq!(s.field(Field::LowPrice), 0);
    assert_eq!(s.field(Field::Price), 9 * 256);
    assert_eq!(s.field(Field::ClosePrice), -123 * 256);
}

#[test]
fn changed_flag_follows_the_last_field_only() {
    let mut p = MktdtParser::with_anchor(0);
    p.parse_line(b"MD001|000001|A|1|2|3|4|5|6|7|8|T|09:30:00.000").unwrap();
    assert!(p.get(b"000001").unwrap().changed());
    p.parse_line(b"MD001|000001|A|9|9|9|9|9|9|9|8|T|09:30:00.000").unwrap();
    assert!(!p.get(b"000001").unwrap().changed());
    p.parse_line(b"MD001|000001|A|9|9|9|9|9|9|9|7|T|09:30:00.000").unwrap();
    assert!(p.get(b"000001").unwrap().changed());
    p.parse_line(b"MD001|000002|B|1|2|3|4|5|6|7|0|T|09:30:00.000").unwrap();
    assert!(!p.get(b"000002").unwrap().changed());
}

fn sample_file() -> Vec<Vec<u8>> {
    vec![
        HEADER.to_vec(),
        md_line("MD001", "000001", "INDEX", 8, 1, "|T111|09:25:03.500"),
        md_line("MD002", "600000", "BANK", 28, 10, "|T111|09:25:04.000"),
        b"TRAILER|x".to_vec(),
        md_line("MD004", "510050", "ETF", 30, 20, "|T111|09:25:05.000"),
        md_line("MD001", "600000", "OTHER", 8, 70, "|T111|09:25:06.000"),
    ]
}

fn dump(p: &MktdtParser, codes: &[&[u8]]) -> Vec<(Vec<u8>, Vec<u8>, Vec<i64>, Option<i64>)> {
    let mut out = Vec::new();
    for code in codes {
        let s = p.get(code).unwrap();
        let mut fields = Vec::new();
        for i in 0..30 {
            fields.push(s.field(table_entry(i)));
        }
        out.push((s.code().to_vec(), s.name().to_vec(), fields, s.timestamp()));
    }
    out
}

#[test]
fn parse_lines_reads_a_file() {
    let mut p = MktdtParser::with_anchor(0);
    assert_eq!(p.parse_lines(&sample_file()), Ok(()));
    assert_eq!(p.len(), 3);
    assert_eq!(p.anchor(), DAY_2024_01_02 + 33_300_000);
    let bank = p.get(b"600000").unwrap();
    assert_eq!(bank.name(), b"BANK");
    assert_eq!(bank.field(Field::Volume), packed("70.5"));
    assert_eq!(bank.field(Field::Bid1Price), packed("18.5"));
    assert_eq!(bank.timestamp(), Some(DAY_2024_01_02 + 33_906_000));
}

#[test]
fn parse_lines_stops_at_the_first_error() {
    let mut file = sample_file();
    file.insert(3, b"MD001|000001|INDEX|1|2".to_vec());
    let mut p = MktdtParser::with_anchor(0);
    assert_eq!(p.parse_lines(&file), Err(FeedError::InvalidRow));
    assert_eq!(p.len(), 2);
    assert!(p.get(b"510050").is_none());
}

#[test]
fn feeding_a_file_again_gives_the_same_cache() {
    let mut p = MktdtParser::with_anchor(0);
    p.parse_lines(&sample_file()).unwrap();
    let codes: [&[u8]; 3] = [b"000001", b"600000", b"510050"];
    let first = dump(&p, &codes);
    let anchor = p.anchor();
    p.parse_lines(&sample_file()).unwrap();
    assert_eq!(p.len(), 3);
    assert_eq!(p.anchor(), anchor);
    assert_eq!(dump(&p, &codes), first);
}

#[test]
fn a_record_one_field_short_with_its_tail_reads_the_tail_as_fields() {
    let mut p = MktdtParser::with_anchor(0);
    let line = md_line("MD002", "600000", "BANK", 27, 1, "|77|09:30:00.000");
    assert_eq!(p.parse_line(&line), Ok(()));
    let s = p.get(b"600000").unwrap();
    assert_eq!(s.field(Field::Ask5Price), packed("27.5"));
    assert_eq!(s.field(Field::Ask5Volume), packed("77"));
    assert_eq!(s.timestamp(), None);
}

#[test]
fn symbol_of_a_snapshot() {
    let mut p = MktdtParser::with_anchor(0);
    p.parse_line(MD001).unwrap();
    let s = p.get(b"000001").unwrap();
    assert_eq!(s.symbol().market, 0);
    assert_eq!(s.symbol().code, b"000001".to_vec());
}

#[test]
fn a_record_before_the_first_header_is_dated_by_the_anchor_of_its_pass() {
    let file = vec![
        md_line("MD001", "000001", "INDEX", 8, 1, "|T111|09:25:03.500"),
        HEADER.to_vec(),
    ];
    let mut p = MktdtParser::with_anchor(0);
    p.parse_lines(&file).unwrap();
    assert_eq!(p.get(b"000001").unwrap().timestamp(), Some(33_903_500));
    p.parse_lines(&file).unwrap();
    assert_eq!(
        p.get(b"000001").unwrap().timestamp(),
        Some(DAY_2024_01_02 + 33_903_500)
    );
}
