use glotaran_converter_lib::das6::das6_table;
use glotaran_converter_lib::das6::run_das6;
use glotaran_converter_lib::error::ErrorKind;
use glotaran_converter_lib::lfp::lfp_table;
use glotaran_converter_lib::lfp::run_lfp;
use glotaran_converter_lib::r4::r4_table;
use glotaran_converter_lib::r4::run_r4;

fn rows(cells: &[&[&str]]) -> Vec<Vec<String>> {
    cells
        .iter()
        .map(|row| row.iter().map(|c| c.to_string()).collect())
        .collect()
}

#[test]
fn lfp_round_trip() {
    // Header record, eight skipped preamble records, two data records.
    let data = b"550,551\nfoo\nf1\nf2\nf3\nf4\nf5\nf6\nf7\n1,2\n3,4\n";
    let (name, bytes) = run_lfp("input_lfp.txt", data).expect("conversion failed");
    assert_eq!(name, "input_lfp.ascii");
    let expected = "input_lfp.ascii\nEduardo Gonik\nwavelength explicit\nintervalnr 0\n\
550\t551\n1\t2\n3\t4\n";
    assert_eq!(String::from_utf8(bytes).unwrap(), expected);
}

#[test]
fn lfp_table_extracts_headers_and_body() {
    let records = rows(&[
        &["550", "551"],
        &["foo"],
        &["f1"],
        &["f2"],
        &["f3"],
        &["f4"],
        &["f5"],
        &["f6"],
        &["f7"],
        &["1", "2"],
        &["3", "4"],
    ]);
    let (table, line_count) = lfp_table(&records);
    assert_eq!(table.headers, vec!["550".to_string(), "551".to_string()]);
    assert_eq!(table.body, rows(&[&["1", "2"], &["3", "4"]]));
    assert_eq!(line_count, 1);
}

#[test]
fn lfp_header_labels_use_three_digit_runs() {
    let records = rows(&[&["Ch1_550nm", "time", "12345"]]);
    let (table, line_count) = lfp_table(&records);
    assert_eq!(
        table.headers,
        vec!["550".to_string(), "".to_string(), "123".to_string()]
    );
    assert!(table.body.is_empty());
    assert_eq!(line_count, 2);
}

#[test]
fn lfp_short_source_has_empty_body() {
    let data = b"550,551\nonly,one\n";
    let (_, bytes) = run_lfp("short.txt", data).expect("conversion failed");
    let text = String::from_utf8(bytes).unwrap();
    assert_eq!(
        text,
        "short.ascii\nEduardo Gonik\nwavelength explicit\nintervalnr 0\n550\t551\n"
    );
}

#[test]
fn lfp_interval_is_header_count_minus_two() {
    let data = b"100,200,300,400,500\nf1\nf2\nf3\nf4\nf5\nf6\nf7\nf8\n1,2,3,4,5\n";
    let (_, bytes) = run_lfp("five.txt", data).expect("conversion failed");
    let text = String::from_utf8(bytes).unwrap();
    assert!(text.contains("intervalnr 3\n"));
}

#[test]
fn lfp_empty_source_is_parse_error() {
    let err = run_lfp("x.txt", b"").unwrap_err();
    assert_eq!(err.kind, ErrorKind::Parse);
}

#[test]
fn lfp_bad_utf8_is_parse_error() {
    let err = run_lfp("x.txt", b"\xff\xfe,\xff\n").unwrap_err();
    assert_eq!(err.kind, ErrorKind::Parse);
}

#[test]
fn lfp_single_column_header_is_parse_error() {
    let err = run_lfp("x.txt", b"a\nb\n").unwrap_err();
    assert_eq!(err.kind, ErrorKind::Parse);
}

#[test]
fn das6_round_trip() {
    let data = b"t\tprompt\t500\nx\ty\tz\n";
    let times: Vec<i64> = vec![0];
    let (name, bytes) = run_das6(data, &times, "out_trp.ascii").expect("conversion failed");
    assert_eq!(name, "out_trp.ascii");
    let expected = "out_trp.ascii\nEduardo Gonik\nwavelength explicit\nintervalnr 3\n\
0\t0\t500\t\n0\tx\tz\n";
    assert_eq!(String::from_utf8(bytes).unwrap(), expected);
}

#[test]
fn das6_table_shapes_headers_and_rows() {
    let records = rows(&[&["t", "prompt", "500"], &["x", "y", "z"]]);
    let times: Vec<i64> = vec![0];
    let (table, line_count) = das6_table(&records, &times);
    // No three-digit run in "t" or "prompt": placeholder "0"; one
    // trailing blank label; the prompt cell (originally second) is
    // removed from the row and the synthesized time is prepended.
    assert_eq!(
        table.headers,
        vec![
            "0".to_string(),
            "0".to_string(),
            "500".to_string(),
            "".to_string()
        ]
    );
    assert_eq!(table.body, rows(&[&["0", "x", "z"]]));
    assert_eq!(line_count, 4);
}

#[test]
fn das6_time_axis_from_acquisition_parameters() {
    // Time for row n is int((n - sync_delay) * ns_per_chn); with a
    // positive ns_per_chn the column never decreases.
    let sync_delay: f32 = 0.5;
    let ns_per_chn: f32 = 2.0;
    let times: Vec<i64> = (0..4)
        .map(|n| ((n as f32 - sync_delay) * ns_per_chn) as i32 as i64)
        .collect();
    assert_eq!(times, vec![-1, 1, 3, 5]);
    let records = rows(&[
        &["t", "prompt", "500"],
        &["a", "b", "c"],
        &["d", "e", "f"],
        &["g", "h", "i"],
        &["j", "k", "l"],
    ]);
    let (table, _) = das6_table(&records, &times);
    let column: Vec<&str> = table.body.iter().map(|r| r[0].as_str()).collect();
    assert_eq!(column, vec!["-1", "1", "3", "5"]);
    let mut previous = i64::MIN;
    for cell in column {
        let v: i64 = cell.parse().unwrap();
        assert!(v >= previous);
        previous = v;
    }
}

#[test]
fn das6_short_time_axis_is_parse_error() {
    let data = b"t\tprompt\t500\na\tb\tc\nd\te\tf\n";
    let times: Vec<i64> = vec![0];
    let err = run_das6(data, &times, "out.ascii").unwrap_err();
    assert_eq!(err.kind, ErrorKind::Parse);
}

#[test]
fn das6_ragged_source_is_parse_error() {
    let data = b"a\tb\nc\n";
    let times: Vec<i64> = vec![0, 0];
    let err = run_das6(data, &times, "out.ascii").unwrap_err();
    assert_eq!(err.kind, ErrorKind::Parse);
}

#[test]
fn r4_round_trip_sorts_and_filters() {
    // The third column has an empty label and is dropped; the rest
    // sort as t (first), then 100, then 300.
    let data = b"t\t300\t\t100\n0\ta\tb\tc\n1\td\te\tf\n";
    let (name, bytes) = run_r4("in_r4.txt", data).expect("conversion failed");
    assert_eq!(name, "in_r4.ascii");
    let preamble = "in_r4.ascii\nEduardo Gonik\nwavelength explicit\nintervalnr 2\n";
    let table = "   \t100\t300\n0\tc\ta\n1\tf\td\n";
    let expected = format!("{preamble}{table}");
    assert_eq!(String::from_utf8(bytes).unwrap(), expected);
}

#[test]
fn r4_table_transposes() {
    let records = rows(&[&["t", "300", "", "100"], &["0", "a", "b", "c"], &[
        "1", "d", "e", "f",
    ]]);
    let (table, line_count) = r4_table(&records).expect("conversion failed");
    assert_eq!(
        table.headers,
        vec!["   ".to_string(), "100".to_string(), "300".to_string()]
    );
    assert_eq!(table.body, rows(&[&["0", "c", "a"], &["1", "f", "d"]]));
    assert_eq!(line_count, 3);
}

#[test]
fn r4_negative_labels_sort_numerically() {
    // Numeric order is what the sort promises; a negative label
    // legitimately sorts ahead of the time column.
    let records = rows(&[&["t", "-12", "7"], &["0", "a", "b"]]);
    let (table, _) = r4_table(&records).expect("conversion failed");
    assert_eq!(
        table.headers,
        vec!["   ".to_string(), "t".to_string(), "7".to_string()]
    );
    assert_eq!(table.body, rows(&[&["a", "0", "b"]]));
}

#[test]
fn r4_unparsable_wavelength_is_data_error() {
    let data = b"t\tabc\n1\t2\n";
    let err = run_r4("x.txt", data).unwrap_err();
    assert_eq!(err.kind, ErrorKind::Data);
    assert_eq!(err.message(), "Couldn't parse wavelength");
}

#[test]
fn r4_all_columns_filtered_is_parse_error() {
    let data = b"\t\nx\ty\n";
    let err = run_r4("x.txt", data).unwrap_err();
    assert_eq!(err.kind, ErrorKind::Parse);
}

#[test]
fn r4_empty_source_is_parse_error() {
    let err = run_r4("x.txt", b"").unwrap_err();
    assert_eq!(err.kind, ErrorKind::Parse);
}
