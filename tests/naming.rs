use invox::naming::{
    db_path, file_extension, format_log_line, join_path, sanitize_file_name, sanitize_log_value,
    stored_file_name,
};
use invox::status::FileStatus;
use invox::text::{decimal_text, parse_i64};
use invox::hashing::FileHasher;

#[test]
fn sanitize_lowercases_and_collapses_separators() {
    assert_eq!(sanitize_file_name("My Sheet (2024)", "fallback"), "my-sheet-2024");
    assert_eq!(sanitize_file_name("A.B_C--D", "fallback"), "a-b-c-d");
    assert_eq!(sanitize_file_name("--Invoices  Q1--", "fallback"), "invoices-q1");
}

#[test]
fn sanitize_dash_runs_span_dropped_characters() {
    assert_eq!(sanitize_file_name("a - ! - b", "x"), "a-b");
}

#[test]
fn sanitize_falls_back_when_nothing_is_left() {
    assert_eq!(sanitize_file_name(" __ ", "sheet-7"), "sheet-7");
    assert_eq!(sanitize_file_name("", "untitled-sheet"), "untitled-sheet");
    assert_eq!(sanitize_file_name("¿?", "untitled-xml"), "untitled-xml");
}

#[test]
fn log_values_stay_on_one_line() {
    assert_eq!(sanitize_log_value("a\nb\rc"), "a\\nb\\rc");
    assert_eq!(sanitize_log_value("plain"), "plain");
    assert_eq!(sanitize_log_value(""), "");
}

#[test]
fn extensions_follow_the_last_dot_of_the_base_name() {
    assert_eq!(file_extension("report.pdf"), "pdf");
    assert_eq!(file_extension("archive.tar.gz"), "gz");
    assert_eq!(file_extension(".bashrc"), "");
    assert_eq!(file_extension("noext"), "");
    assert_eq!(file_extension("dir.v2/readme"), "");
    assert_eq!(file_extension("dir/scan.PNG"), "PNG");
}

#[test]
fn stored_names_keep_the_extension() {
    assert_eq!(stored_file_name("abc", "x.PDF"), "abc.PDF");
    assert_eq!(stored_file_name("abc", "README"), "abc");
}

#[test]
fn paths_are_joined_with_one_slash() {
    assert_eq!(join_path("/data/files", "abc.pdf"), "/data/files/abc.pdf");
    assert_eq!(join_path("/data/files/", "abc.pdf"), "/data/files/abc.pdf");
    assert_eq!(join_path("", "abc.pdf"), "abc.pdf");
    assert_eq!(db_path("/home/u/.local/share/com.invox.ai"), "/home/u/.local/share/com.invox.ai/app.db");
}

#[test]
fn status_names_round_trip() {
    for st in [FileStatus::Unprocessed, FileStatus::Processing, FileStatus::Processed, FileStatus::Failed] {
        assert_eq!(FileStatus::parse(st.as_str()), Ok(st));
    }
    assert_eq!(FileStatus::Processed.as_str(), "Processed");
    let parsed: FileStatus = "Failed".parse().unwrap();
    assert_eq!(parsed, FileStatus::Failed);
}

#[test]
fn unknown_status_names_are_refused() {
    assert_eq!(FileStatus::parse("done"), Err("Invalid file status: done".to_string()));
    assert_eq!(FileStatus::parse("processed"), Err("Invalid file status: processed".to_string()));
}

#[test]
fn decimal_text_writes_signed_integers() {
    assert_eq!(decimal_text(0), "0");
    assert_eq!(decimal_text(42), "42");
    assert_eq!(decimal_text(-12), "-12");
    assert_eq!(decimal_text(i64::MIN), "-9223372036854775808");
    assert_eq!(decimal_text(i64::MAX), "9223372036854775807");
}

#[test]
fn parse_i64_reads_signed_decimal() {
    assert_eq!(parse_i64("17"), Some(17));
    assert_eq!(parse_i64("+5"), Some(5));
    assert_eq!(parse_i64("-0"), Some(0));
    assert_eq!(parse_i64("-9223372036854775808"), Some(i64::MIN));
    assert_eq!(parse_i64("9223372036854775807"), Some(i64::MAX));
    assert_eq!(parse_i64("9223372036854775808"), None);
    assert_eq!(parse_i64("99999999999999999999999"), None);
    assert_eq!(parse_i64(""), None);
    assert_eq!(parse_i64("-"), None);
    assert_eq!(parse_i64("12a"), None);
}

#[test]
fn content_digest_is_blake3_hex() {
    assert_eq!(
        FileHasher::calculate_hash(b"abc"),
        "6437b3ac38465133ffb63b75273a8db548c558465d79db03fd359c6cd5bd9d85"
    );
    assert_eq!(
        FileHasher::calculate_hash(b""),
        "af1349b9f5f9a1a6a0404dea36dcc9499bcb25c9adc112b7cc9a93cae41f3262"
    );
}

#[test]
fn log_lines_escape_and_upper_case() {
    let line = format_log_line(
        "2024-01-01T00:00:00+00:00",
        "warn",
        "disk\nfull",
        &Some("gc".to_string()),
        &Some("id=1\r".to_string()),
    );
    assert_eq!(line, "2024-01-01T00:00:00+00:00 [WARN] (gc) disk\\nfull :: id=1\\r");
    let bare = format_log_line("t", "info", "ok", &None, &Some(String::new()));
    assert_eq!(bare, "t [INFO] ok");
}
