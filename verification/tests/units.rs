use glotaran_converter_lib::error::ErrorKind;
use glotaran_converter_lib::error::UnparsableFileError;
use glotaran_converter_lib::label::extract_numeric_label;
use glotaran_converter_lib::numfmt::i64_to_string;
use glotaran_converter_lib::numfmt::u64_to_string;
use glotaran_converter_lib::parse_int::parse_i32;
use glotaran_converter_lib::pathname::output_name_for;
use glotaran_converter_lib::writer::ascii_output;

#[test]
fn label_extraction_finds_first_three_digit_run() {
    assert_eq!(extract_numeric_label("Ch1_550nm"), Some("550".to_string()));
    assert_eq!(extract_numeric_label("550"), Some("550".to_string()));
    assert_eq!(extract_numeric_label("12345"), Some("123".to_string()));
    assert_eq!(extract_numeric_label("a1b22c333d"), Some("333".to_string()));
}

#[test]
fn label_extraction_rejects_short_runs() {
    assert_eq!(extract_numeric_label(""), None);
    assert_eq!(extract_numeric_label("t"), None);
    assert_eq!(extract_numeric_label("ab12"), None);
    assert_eq!(extract_numeric_label("1a2b3c"), None);
}

#[test]
fn parse_i32_accepts_signed_decimal() {
    assert_eq!(parse_i32("42"), Some(42));
    assert_eq!(parse_i32("+7"), Some(7));
    assert_eq!(parse_i32("-5"), Some(-5));
    assert_eq!(parse_i32("0"), Some(0));
    assert_eq!(parse_i32("2147483647"), Some(i32::MAX));
    assert_eq!(parse_i32("-2147483648"), Some(i32::MIN));
}

#[test]
fn parse_i32_rejects_malformed_and_overflow() {
    assert_eq!(parse_i32(""), None);
    assert_eq!(parse_i32("-"), None);
    assert_eq!(parse_i32("+"), None);
    assert_eq!(parse_i32("1a"), None);
    assert_eq!(parse_i32("t"), None);
    assert_eq!(parse_i32("2147483648"), None);
    assert_eq!(parse_i32("-2147483649"), None);
    assert_eq!(parse_i32("99999999999999999999"), None);
}

#[test]
fn output_name_replaces_extension() {
    assert_eq!(output_name_for("data.txt"), "data.ascii");
    assert_eq!(output_name_for("dir/data.txt"), "data.ascii");
    assert_eq!(output_name_for("noext"), "noext.ascii");
    assert_eq!(output_name_for(".hidden"), ".hidden.ascii");
    assert_eq!(output_name_for("a.b.c"), "a.b.ascii");
}

#[test]
fn integers_render_in_decimal() {
    assert_eq!(u64_to_string(0), "0");
    assert_eq!(u64_to_string(42), "42");
    assert_eq!(u64_to_string(1000), "1000");
    assert_eq!(i64_to_string(0), "0");
    assert_eq!(i64_to_string(-1), "-1");
    assert_eq!(i64_to_string(-120), "-120");
    assert_eq!(i64_to_string(35), "35");
}

#[test]
fn writer_emits_preamble_then_table() {
    let headers = vec!["550".to_string(), "551".to_string()];
    let body = vec![vec!["1".to_string(), "2".to_string()]];
    let bytes = ascii_output(headers, body, 1, "out.ascii");
    assert_eq!(
        String::from_utf8(bytes).unwrap(),
        "out.ascii\nEduardo Gonik\nwavelength explicit\nintervalnr 0\n550\t551\n1\t2\n"
    );
}

#[test]
fn writer_quotes_cells_holding_the_delimiter() {
    let headers = vec!["a\tb".to_string(), "c".to_string()];
    let body: Vec<Vec<String>> = vec![];
    let bytes = ascii_output(headers, body, 2, "q.ascii");
    assert_eq!(
        String::from_utf8(bytes).unwrap(),
        "q.ascii\nEduardo Gonik\nwavelength explicit\nintervalnr 1\n\"a\tb\"\tc\n"
    );
}

#[test]
fn error_carries_kind_and_message() {
    let e = UnparsableFileError::parse("bad header");
    assert_eq!(e.kind, ErrorKind::Parse);
    assert_eq!(e.message(), "bad header");
    let d = UnparsableFileError::data("bad number");
    assert_eq!(d.kind, ErrorKind::Data);
    assert_eq!(d.message(), "bad number");
}
