#![allow(non_snake_case)]

use robocopy_csv::FooterDetail;
use robocopy_csv::ParseError;
use robocopy_csv::datetime::DateTime;
use robocopy_csv::kv_split;
use robocopy_csv::parser::parse_runs;

#[test]
fn test_footer_detail_0101_N() {
    let result =
        FooterDetail::from_str("7.99 m         0    7.99 m         0         0    9.45 m").unwrap();
    assert_eq!(8378122, result.total);
    assert_eq!(0, result.copied);
    assert_eq!(8378122, result.skipped);
    assert_eq!(0, result.mismatch);
    assert_eq!(0, result.failed);
    assert_eq!(9909043, result.extras);
}

#[test]
fn test_kv_split_0001_N() {
    let cases: Vec<(&str, &str, &str)> = vec![
        (r"k:v", r"k", r"v"),
        (r"   コピー元 : C:\_MIRROR\", r"コピー元", r"C:\_MIRROR\"),
        (
            r"   ROBOCOPY     ::     Windows の堅牢性の高いファイル コピー                              ",
            r"ROBOCOPY",
            r":     Windows の堅牢性の高いファイル コピー",
        ),
        (
            r"  オプション: *.* /BYTES /S /E /DCOPY:DA /COPY:DAT /PURGE /MIR /NP /R:1 /W:3 ",
            r"オプション",
            r"*.* /BYTES /S /E /DCOPY:DA /COPY:DAT /PURGE /MIR /NP /R:1 /W:3",
        ),
        (r"k:", r"k", r""),
        (r":", r"", r""),
    ];
    for (input, key_expected, value_expected) in cases {
        let result = kv_split(input).unwrap();
        assert_eq!(key_expected, result.0);
        assert_eq!(value_expected, result.1);
    }
}

#[test]
fn test_kv_split_0002_A() {
    assert!(kv_split(r"a").is_none());
    assert!(kv_split(r"  ").is_none());
    assert!(kv_split(r"").is_none());
}

#[test]
fn test_kv_split_first_colon_only() {
    let result = kv_split("ROBOCOPY :: text").unwrap();
    assert_eq!("ROBOCOPY", result.0);
    assert_eq!(": text", result.1);
}

#[test]
fn test_decode_plain_integers() {
    let result = FooterDetail::from_str("10 2 3 0 5 0").unwrap();
    assert_eq!(10, result.total);
    assert_eq!(2, result.copied);
    assert_eq!(3, result.skipped);
    assert_eq!(0, result.mismatch);
    assert_eq!(5, result.failed);
    assert_eq!(0, result.extras);
}

#[test]
fn test_decode_round_trip() {
    let result = FooterDetail::from_str("7.99 m 0 7.99 m 0 0 9.45 m").unwrap();
    assert_eq!(8378122, result.total);
    assert_eq!(0, result.copied);
    assert_eq!(8378122, result.skipped);
    assert_eq!(0, result.mismatch);
    assert_eq!(0, result.failed);
    assert_eq!(9909043, result.extras);
}

#[test]
fn test_decode_all_prefixes() {
    let result = FooterDetail::from_str("1.0 k 1.0 m 1.0 g 1.0 t 0.5 k 2.5 m").unwrap();
    assert_eq!(1024, result.total);
    assert_eq!(1048576, result.copied);
    assert_eq!(1073741824, result.skipped);
    assert_eq!(1099511627776, result.mismatch);
    assert_eq!(512, result.failed);
    assert_eq!(2621440, result.extras);
}

#[test]
fn test_decode_unknown_unit() {
    let result = FooterDetail::from_str("7.99 x 0 7.99 m 0 0 9.45 m");
    assert_eq!(Err(ParseError::MalformedCounterBlock), result.map(|_| ()));
}

#[test]
fn test_decode_short_by_a_field() {
    let result = FooterDetail::from_str("10 2 3 0 5");
    assert_eq!(Err(ParseError::InsufficientFields), result.map(|_| ()));
}

#[test]
fn test_decode_missing_unit_at_end() {
    let result = FooterDetail::from_str("10 2 3 0 5 7.99");
    assert_eq!(Err(ParseError::InsufficientFields), result.map(|_| ()));
}

#[test]
fn test_decode_malformed_number() {
    let result = FooterDetail::from_str("1x 2 3 0 5 0");
    assert_eq!(Err(ParseError::MalformedCounterBlock), result.map(|_| ()));
}

#[test]
fn test_decode_trailing_tokens_ignored() {
    let result = FooterDetail::from_str("10 2 3 0 5 0 999 888").unwrap();
    assert_eq!(10, result.total);
    assert_eq!(0, result.extras);
}

#[test]
fn test_get_prefix_values() {
    assert_eq!(1024, FooterDetail::get_prefix("k").unwrap());
    assert_eq!(1024 * 1024, FooterDetail::get_prefix("m").unwrap());
    assert_eq!(1024 * 1024 * 1024, FooterDetail::get_prefix("g").unwrap());
    assert_eq!(1024u64 * 1024 * 1024 * 1024, FooterDetail::get_prefix("t").unwrap());
    assert_eq!(Err(ParseError::MalformedCounterBlock), FooterDetail::get_prefix("x").map(|_| ()));
    assert_eq!(Err(ParseError::MalformedCounterBlock), FooterDetail::get_prefix("K").map(|_| ()));
    assert_eq!(Err(ParseError::MalformedCounterBlock), FooterDetail::get_prefix("km").map(|_| ()));
}

const FMT: &str = "%Y/%m/%d %H:%M:%S";

fn run_one_lines() -> Vec<String> {
    vec![
        "----------------------------------------".to_string(),
        "   ROBOCOPY     ::     Robust File Copy  ".to_string(),
        "----------------------------------------".to_string(),
        "  Started : 2021/01/02 03:04:05".to_string(),
        r"   Source : C:\src\".to_string(),
        r"     Dest : D:\dst\".to_string(),
        "    Files : *.*".to_string(),
        "  Options : /MIR /NP".to_string(),
        "----------------------------------------".to_string(),
        r"        New File  1234  C:\src\a.txt".to_string(),
        "----------------------------------------".to_string(),
        "   Dirs :        10         2         3         0         5         0".to_string(),
        "  Files :      7.99 m         0    7.99 m         0         0    9.45 m".to_string(),
        "  Bytes :   1234 5 6 0 0 0".to_string(),
        "  Times :   0:00:01   0:00:00    0:00:00   0:00:01".to_string(),
        "  Ended : 2021/01/02 03:09:05".to_string(),
    ]
}

#[test]
fn test_no_rule_lines_no_records() {
    let lines: Vec<String> = vec![
        "Started : 2021/01/02 03:04:05".to_string(),
        "Dirs : 1 2 3 4 5 6".to_string(),
        "just some text".to_string(),
    ];
    let (records, err) = parse_runs(&lines, FMT);
    assert_eq!(0, records.len());
    assert!(err.is_none());
}

#[test]
fn test_single_complete_run() {
    let lines = run_one_lines();
    let (records, err) = parse_runs(&lines, FMT);
    assert!(err.is_none());
    assert_eq!(1, records.len());
    let rec = &records[0];
    assert_eq!(
        DateTime { year: 2021, month: 1, day: 2, hour: 3, minute: 4, second: 5 },
        rec.header.started
    );
    assert_eq!(r"C:\src\", rec.header.source);
    assert_eq!(r"D:\dst\", rec.header.dest);
    assert_eq!("*.*", rec.header.files);
    assert_eq!("/MIR /NP", rec.header.options);
    assert_eq!(FooterDetail { total: 10, copied: 2, skipped: 3, mismatch: 0, failed: 5, extras: 0 },
        rec.footer.dirs);
    assert_eq!(
        FooterDetail {
            total: 8378122,
            copied: 0,
            skipped: 8378122,
            mismatch: 0,
            failed: 0,
            extras: 9909043
        },
        rec.footer.files
    );
    assert_eq!(FooterDetail { total: 1234, copied: 5, skipped: 6, mismatch: 0, failed: 0, extras: 0 },
        rec.footer.bytes);
    assert_eq!("0:00:01   0:00:00    0:00:00   0:00:01", rec.footer.times);
    assert_eq!(
        DateTime { year: 2021, month: 1, day: 2, hour: 3, minute: 9, second: 5 },
        rec.footer.ended
    );
}

#[test]
fn test_japanese_labels_and_format() {
    let lines: Vec<String> = vec![
        "--------".to_string(),
        "--------".to_string(),
        "  開始 : 2021年01月02日 03:04:05".to_string(),
        r"  コピー元 : C:\src\".to_string(),
        r"  コピー先 : D:\dst\".to_string(),
        "  ファイル : *.*".to_string(),
        "  オプション : /MIR".to_string(),
        "--------".to_string(),
        "--------".to_string(),
        "  ディレクトリ : 1 2 3 0 0 0".to_string(),
        "  ファイル : 4 5 6 0 0 0".to_string(),
        "  バイト : 7 8 9 0 0 0".to_string(),
        "  時刻 : 0:00:01".to_string(),
        "  終了 : 2021年01月02日 03:09:05".to_string(),
    ];
    let (records, err) = parse_runs(&lines, "%Y年%m月%d日 %H:%M:%S");
    assert!(err.is_none());
    assert_eq!(1, records.len());
    let rec = &records[0];
    assert_eq!(
        DateTime { year: 2021, month: 1, day: 2, hour: 3, minute: 4, second: 5 },
        rec.header.started
    );
    assert_eq!(r"C:\src\", rec.header.source);
    assert_eq!(r"D:\dst\", rec.header.dest);
    assert_eq!("*.*", rec.header.files);
    assert_eq!("/MIR", rec.header.options);
    assert_eq!(1, rec.footer.dirs.total);
    assert_eq!(4, rec.footer.files.total);
    assert_eq!(7, rec.footer.bytes.total);
    assert_eq!("0:00:01", rec.footer.times);
    assert_eq!(
        DateTime { year: 2021, month: 1, day: 2, hour: 3, minute: 9, second: 5 },
        rec.footer.ended
    );
}

#[test]
fn test_two_consecutive_runs() {
    let mut lines = run_one_lines();
    lines.push("--------".to_string());
    lines.push("--------".to_string());
    lines.push("  Started : 2022/06/07 08:09:10".to_string());
    lines.push(r"   Source : E:\other\".to_string());
    lines.push(r"     Dest : F:\mirror\".to_string());
    lines.push("    Files : *.log".to_string());
    lines.push("  Options : /S".to_string());
    lines.push("--------".to_string());
    lines.push("--------".to_string());
    lines.push("   Dirs : 1 1 0 0 0 0".to_string());
    lines.push("  Files : 2 2 0 0 0 0".to_string());
    lines.push("  Bytes : 3 3 0 0 0 0".to_string());
    lines.push("  Times : 0:00:09".to_string());
    lines.push("  Ended : 2022/06/07 08:09:59".to_string());
    let (records, err) = parse_runs(&lines, FMT);
    assert!(err.is_none());
    assert_eq!(2, records.len());
    assert_eq!(r"C:\src\", records[0].header.source);
    assert_eq!(10, records[0].footer.dirs.total);
    assert_eq!(r"E:\other\", records[1].header.source);
    assert_eq!(r"F:\mirror\", records[1].header.dest);
    assert_eq!("*.log", records[1].header.files);
    assert_eq!("/S", records[1].header.options);
    assert_eq!(1, records[1].footer.dirs.total);
    assert_eq!(2, records[1].footer.files.total);
    assert_eq!(3, records[1].footer.bytes.total);
    assert_eq!("0:00:09", records[1].footer.times);
    assert_eq!(
        DateTime { year: 2022, month: 6, day: 7, hour: 8, minute: 9, second: 10 },
        records[1].header.started
    );
}

#[test]
fn test_incomplete_trailing_run_dropped() {
    let mut lines = run_one_lines();
    lines.push("--------".to_string());
    lines.push("--------".to_string());
    lines.push("  Started : 2022/06/07 08:09:10".to_string());
    let (records, err) = parse_runs(&lines, FMT);
    assert!(err.is_none());
    assert_eq!(1, records.len());
    assert_eq!(r"C:\src\", records[0].header.source);

    let mut lines2 = run_one_lines();
    lines2.push("--------".to_string());
    lines2.push("--------".to_string());
    lines2.push("  Started : 2022/06/07 08:09:10".to_string());
    lines2.push("--------".to_string());
    lines2.push("  context text, not a footer".to_string());
    let (records2, err2) = parse_runs(&lines2, FMT);
    assert!(err2.is_none());
    assert_eq!(1, records2.len());
}

#[test]
fn test_malformed_timestamp_is_fatal() {
    let lines: Vec<String> = vec![
        "--------".to_string(),
        "--------".to_string(),
        "  Started : not a date".to_string(),
    ];
    let (records, err) = parse_runs(&lines, FMT);
    assert_eq!(0, records.len());
    assert_eq!(Some(ParseError::MalformedTimestamp), err);
}

#[test]
fn test_error_keeps_earlier_records() {
    let mut lines = run_one_lines();
    lines.push("--------".to_string());
    lines.push("--------".to_string());
    lines.push("--------".to_string());
    lines.push("--------".to_string());
    lines.push("   Dirs : bad 2 3 0 0 0".to_string());
    let (records, err) = parse_runs(&lines, FMT);
    assert_eq!(1, records.len());
    assert_eq!(r"C:\src\", records[0].header.source);
    assert_eq!(Some(ParseError::MalformedCounterBlock), err);
}

#[test]
fn test_unrecognized_labels_ignored() {
    let mut lines = run_one_lines();
    lines.insert(4, "  Banner : something new".to_string());
    lines.push("   Speed : 99999999 bytes/sec".to_string());
    let (records, err) = parse_runs(&lines, FMT);
    assert!(err.is_none());
    assert_eq!(1, records.len());
    assert_eq!(r"C:\src\", records[0].header.source);
    assert_eq!(10, records[0].footer.dirs.total);
}
