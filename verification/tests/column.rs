use tidy_viewer::datatype::column::{
    calculate_column_width, format_column, format_strings, FormatConfig,
};
use tidy_viewer::datatype::{get_col_data_type, parse_delimiter, ValueType};
use tidy_viewer::error::FormatError;
use tidy_viewer::files::{
    calculate_sample_size, is_arrow_extension, is_arrow_file, is_json_file, is_parquet_file,
};
use unicode_width::UnicodeWidthStr;

#[test]
fn datatype_one_byte_delimiter() {
    assert_eq!(parse_delimiter(","), Ok(b','));
    assert_eq!(parse_delimiter(";"), Ok(b';'));
    assert_eq!(parse_delimiter("|"), Ok(b'|'));
    assert_eq!(parse_delimiter(" "), Ok(b' '));
    assert_eq!(parse_delimiter("\t"), Ok(b'\t'));
}

#[test]
fn datatype_tab_delimiter() {
    assert_eq!(parse_delimiter("\\t"), Ok(b'\t'));
}

#[test]
fn datatype_delimiter_wrong_length() {
    assert_eq!(
        parse_delimiter(""),
        Err("expected one byte as delimiter, got 0 bytes (\"\")".to_string())
    );
    assert_eq!(
        parse_delimiter("too long"),
        Err("expected one byte as delimiter, got 8 bytes (\"too long\")".to_string())
    );
    assert_eq!(
        parse_delimiter("\\n"),
        Err("expected one byte as delimiter, got 2 bytes (\"\\n\")".to_string())
    );
}

#[test]
fn one_byte_delimiter() {
    assert_eq!(parse_delimiter(","), Ok(b','));
    assert_eq!(parse_delimiter(";"), Ok(b';'));
    assert_eq!(parse_delimiter("|"), Ok(b'|'));
    assert_eq!(parse_delimiter(" "), Ok(b' '));
    assert_eq!(parse_delimiter("\t"), Ok(b'\t'));
}

#[test]
fn tab_delimiter() {
    assert_eq!(parse_delimiter("\\t"), Ok(b'\t'));
}

#[test]
fn delimiter_wrong_length() {
    assert_eq!(
        parse_delimiter(""),
        Err("expected one byte as delimiter, got 0 bytes (\"\")".to_string())
    );
    assert_eq!(
        parse_delimiter("too long"),
        Err("expected one byte as delimiter, got 8 bytes (\"too long\")".to_string())
    );
    assert_eq!(
        parse_delimiter("\\n"),
        Err("expected one byte as delimiter, got 2 bytes (\"\\n\")".to_string())
    );
}

#[test]
fn delimiter_of_more_than_one_byte_in_one_character() {
    assert_eq!(
        parse_delimiter("é"),
        Err("expected one byte as delimiter, got 2 bytes (\"é\")".to_string())
    );
}

#[test]
fn a_csv() {
    let v: Vec<Vec<&str>> = vec![
        vec![
            "name",
            "abc",
            "abc",
            "abc",
            "abc",
            "abc",
            "abcde",
            "abcdefgh",
            "abcdefghijkl",
            "NA",
            "abcdefghijklmnop",
            "",
            "n/a",
            "floatlike",
        ],
        vec![
            "value",
            "0.00000001",
            "0.0000001",
            "0.000001",
            "0.00001",
            "0.0001",
            "0.001",
            "0.01",
            "0.1",
            "1",
            "10",
            "100",
            "",
            "2/ 2.5 Gallon",
        ],
        vec![
            "bool", "T", "T", "T", "T", "T", "F", "True", "F", "T", "F", "", "F", "F",
        ],
        vec![
            "date",
            "2021-01-01",
            "2021-01-01",
            "2021-01-01",
            "2021-01-01",
            "2021-01-01",
            "2021-01-01",
            "",
            "2021-01-01",
            "2021-01-01",
            "2021-01-01",
            "2021-01-01",
            "2021-01-01",
            "2021-01-01",
        ],
    ];
    let col_largest_width_post_proc: Vec<usize> = vec![16, 13, 4, 10];
    let mut vf: Vec<Vec<String>> = vec![vec!["#".to_string(); 13_usize]; 4_usize];
    for i in 0..col_largest_width_post_proc.len() {
        vf[i] = format_strings(
            &v[i],
            col_largest_width_post_proc[i],
            col_largest_width_post_proc[i],
            3,
            false,
            13,
        );
    }

    assert_eq!(
        vf,
        [
            [
                "name             ",
                "abc              ",
                "abc              ",
                "abc              ",
                "abc              ",
                "abc              ",
                "abcde            ",
                "abcdefgh         ",
                "abcdefghijkl     ",
                "NA               ",
                "abcdefghijklmnop ",
                "NA               ",
                "NA               ",
                "floatlike        "
            ],
            [
                "value         ",
                "  0.00000001  ",
                "  0.0000001   ",
                "  0.000001    ",
                "  0.00001     ",
                "  0.0001      ",
                "  0.001       ",
                "  0.01        ",
                "  0.1         ",
                "  1           ",
                " 10           ",
                "100           ",
                " NA           ",
                "2/ 2.5 Gallon "
            ],
            [
                "bool ", "T    ", "T    ", "T    ", "T    ", "T    ", "F    ", "True ",
                "F    ", "T    ", "F    ", "NA   ", "F    ", "F    "
            ],
            [
                "date       ",
                "2021-01-01 ",
                "2021-01-01 ",
                "2021-01-01 ",
                "2021-01-01 ",
                "2021-01-01 ",
                "2021-01-01 ",
                "NA         ",
                "2021-01-01 ",
                "2021-01-01 ",
                "2021-01-01 ",
                "2021-01-01 ",
                "2021-01-01 ",
                "2021-01-01 "
            ]
        ]
    );
}

#[test]
fn long_doubles_74_csv() {
    let v: Vec<Vec<&str>> = vec![
        vec!["text", "row1", "row2"],
        vec!["col1", "3.333333333333333", "1.11111111111111111"],
        vec!["col2", "3.333333333333333", "1.11111111111111111"],
        vec!["col3", "3.333333333333333", "1.11111111111111111"],
    ];
    let col_largest_width_post_proc: Vec<usize> = vec![4, 4, 4, 4];
    let mut vf: Vec<Vec<String>> = vec![vec!["#".to_string(); 3_usize]; 4_usize];
    for i in 0..col_largest_width_post_proc.len() {
        vf[i] = format_strings(
            &v[i],
            col_largest_width_post_proc[i],
            col_largest_width_post_proc[i],
            3,
            false,
            13,
        );
    }

    assert_eq!(
        vf,
        [
            ["text ", "row1 ", "row2 "],
            ["col1 ", "3.33 ", "1.11 "],
            ["col2 ", "3.33 ", "1.11 "],
            ["col3 ", "3.33 ", "1.11 "]
        ]
    );
}

#[test]
fn unicode_pr55_csv() {
    let v: Vec<Vec<&str>> = vec![
        vec!["aColumn", "1"],
        vec!["bColumn", "üÜğĞçÇşŞöÖ"],
        vec!["cColumn", "üÜğĞçÇşŞöÖ üÜğĞçÇşŞöÖ"],
        vec!["dColumn", "77"],
        vec!["eColumn", "TR"],
        vec!["fColumn", "77"],
        vec!["gColumn", "77"],
    ];
    let col_largest_width_post_proc: Vec<usize> = vec![7, 10, 20, 7, 7, 7, 7];
    let mut vf: Vec<Vec<String>> = vec![vec!["#".to_string(); 2_usize]; 7_usize];
    for i in 0..col_largest_width_post_proc.len() {
        vf[i] = format_strings(
            &v[i],
            col_largest_width_post_proc[i],
            col_largest_width_post_proc[i],
            3,
            false,
            13,
        );
    }

    assert_eq!(
        vf,
        [
            ["aColumn ", "1       "],
            ["bColumn    ", "üÜğĞçÇşŞöÖ "],
            ["cColumn              ", "üÜğĞçÇşŞöÖ üÜğĞçÇşŞ… "],
            ["dColumn ", "77      "],
            ["eColumn ", "TR      "],
            ["fColumn ", "77      "],
            ["gColumn ", "77      "]
        ]
    );
}

#[test]
fn test_flag_f() {
    // don't have a convenient way to push data through tv
    // just want to make sure that all rows of data are printed
    // as opposed to the default 25
    let _v: Vec<Vec<&str>> = vec![
        vec!["norm1"],
        vec!["0.13985051995067665"],
        vec!["1.421378935825573"],
        vec!["0.1785258179751344"],
        vec!["0.1799228728368547"],
        vec!["-0.3601770130525013"],
        vec!["1.8513345120712446"],
        vec!["-1.0265053128729604"],
        vec!["1.1303482682646326"],
        vec!["0.3757364188183757"],
        vec!["-0.18402628567217905"],
        vec!["1.4289001286164538"],
        vec!["1.2662178084324671"],
        vec!["-1.5551459999848616"],
        vec!["-0.08176843684626088"],
        vec!["-1.253797781969998"],
        vec!["0.13521771358169038"],
        vec!["0.45934792507298405"],
        vec!["1.4218768209890322"],
        vec!["-1.8053819464500829"],
        vec!["0.14685455231223585"],
        vec!["-1.6059052140400474"],
        vec!["-0.7531078472058763"],
        vec!["1.5402633909248478"],
        vec!["0.3425162134540953"],
        vec!["-1.1338832231790217"],
        vec!["0.7680488518188675"],
        vec!["0.7707182008280404"],
        vec!["0.21419017294796816"],
        vec!["0.11186073081091127"],
        vec!["0.7042713299033002"],
        vec!["0.07309669153428934"],
        vec!["-2.277812709325943"],
        vec!["-0.7600438986427108"],
        vec!["-0.14008262537120889"],
        vec!["0.15503065800645952"],
    ];
}

#[test]
fn test_arrow_file_detection() {
    // Test Arrow file detection with different extensions
    let feather_path = "test.feather";
    let arrow_path = "test.arrow";
    let ipc_path = "test.ipc";
    let csv_path = "test.csv";

    assert!(is_arrow_file(feather_path));
    assert!(is_arrow_file(arrow_path));
    assert!(is_arrow_file(ipc_path));
    assert!(!is_arrow_file(csv_path));
}

#[test]
fn file_kinds_by_extension() {
    assert!(is_parquet_file("data/table.parquet"));
    assert!(is_parquet_file("TABLE.PARQUET"));
    assert!(!is_parquet_file("parquet"));
    assert!(!is_parquet_file("table.parquet.csv"));
    assert!(is_json_file("a.json"));
    assert!(is_json_file("a.Json"));
    assert!(!is_json_file("a.jsonl"));
    assert!(is_arrow_file("a.IPC"));
    assert!(!is_arrow_file(".arrow"));
    assert!(!is_arrow_file("arrow"));
    assert!(is_arrow_extension("Feather"));
    assert!(!is_arrow_extension("feathers"));
    assert!(!is_arrow_extension(""));
}

#[test]
fn sample_sizes_by_file_size() {
    let mb: u64 = 1024 * 1024;
    assert_eq!(calculate_sample_size(0), 1000);
    assert_eq!(calculate_sample_size(11 * mb - 1), 1000);
    assert_eq!(calculate_sample_size(11 * mb), 5000);
    assert_eq!(calculate_sample_size(100 * mb), 5000);
    assert_eq!(calculate_sample_size(101 * mb), 7500);
    assert_eq!(calculate_sample_size(1000 * mb), 7500);
    assert_eq!(calculate_sample_size(1001 * mb), 10000);
    assert_eq!(calculate_sample_size(u64::MAX), 10000);
}

#[test]
fn result_has_one_cell_per_input_cell() {
    let empty: Vec<&str> = vec![];
    assert_eq!(format_strings(&empty, 2, 20, 3, false, 13).len(), 0);
    let one = vec!["x"];
    assert_eq!(format_strings(&one, 2, 20, 3, false, 13), vec!["x  ".to_string()]);
    let data = vec!["123.456", "NA", "-42.1", "hello"];
    let formatted = format_strings(&data, 2, 20, 3, false, 13);
    assert_eq!(formatted.len(), 4);
    assert_eq!(formatted, vec!["123.  ", " NA   ", "-42.1 ", "hello "]);
}

#[test]
fn every_cell_is_one_column_wider_than_the_column() {
    let columns: Vec<Vec<&str>> = vec![
        vec!["name", "abcdefghijklmnopqrstuvwxyz", "", "1.5", "-0.000012345"],
        vec!["üÜğĞçÇşŞöÖ üÜğĞçÇşŞöÖ", "x"],
        vec!["1", "22", "333"],
        vec!["NA", "n/a", ""],
    ];
    for column in columns.iter() {
        for (lower, upper) in [(2usize, 20usize), (2, 5), (13, 13), (1, 1), (0, 3), (30, 40)] {
            let out = format_strings(column, lower, upper, 3, false, 13);
            assert_eq!(out.len(), column.len());
            let width = UnicodeWidthStr::width(out[0].as_str());
            assert!(width > lower && width <= upper + 1);
            for cell in out.iter() {
                assert_eq!(UnicodeWidthStr::width(cell.as_str()), width);
                assert!(cell.ends_with(' '));
            }
        }
    }
}

#[test]
fn a_cut_inside_a_wide_character_leaves_the_cell_one_column_short() {
    let column = vec!["日本語日本語", "ab"];
    let out = format_strings(&column, 2, 4, 3, false, 13);
    assert_eq!(out, vec!["日… ".to_string(), "ab   ".to_string()]);
    assert_eq!(UnicodeWidthStr::width(out[0].as_str()), 4);
    assert_eq!(UnicodeWidthStr::width(out[1].as_str()), 5);
}

#[test]
fn truncation() {
    let column = vec!["abcdefghijklmnop", "abcdefghijklmnopq"];
    let out = format_strings(&column, 2, 16, 3, false, 13);
    assert_eq!(out[0], "abcdefghijklmnop ");
    assert_eq!(out[1], "abcdefghijklmno\u{2026} ");
    assert_eq!(out[1].chars().count(), 17);
    let narrow = format_strings(&column, 2, 5, 3, false, 13);
    assert_eq!(narrow, vec!["abcd\u{2026} ".to_string(), "abcd\u{2026} ".to_string()]);
}

#[test]
fn a_column_of_missing_values() {
    let column = vec!["", "NA", "null", "missing"];
    let out = format_strings(&column, 2, 20, 3, false, 13);
    assert_eq!(out, vec!["NA ", "NA ", "NA ", "NA "]);
    let wide = format_strings(&column, 5, 20, 3, false, 13);
    assert_eq!(wide, vec!["NA    ", "NA    ", "NA    ", "NA    "]);
}

#[test]
fn a_column_without_fractions_is_not_aligned() {
    let column = vec!["1", "10", "100", "text"];
    let out = format_strings(&column, 2, 20, 3, false, 13);
    assert_eq!(out, vec!["1    ", "10   ", "100  ", "text "]);
}

#[test]
fn column_width_of_finished_cells() {
    let column = vec!["123".to_string(), "456.78".to_string(), "hello".to_string()];
    assert_eq!(calculate_column_width(&column, 2, 20), 6);
    assert_eq!(calculate_column_width(&column, 8, 20), 8);
    assert_eq!(calculate_column_width(&column, 2, 4), 4);
    let none: Vec<String> = vec![];
    assert_eq!(calculate_column_width(&none, 2, 20), 2);
    let wide = vec!["日本語".to_string()];
    assert_eq!(calculate_column_width(&wide, 2, 20), 6);
}

#[test]
fn dominant_kind_by_majority() {
    let col = vec!["1.5", "2.5", "abc", "", "NA"];
    assert_eq!(get_col_data_type(&col), Ok(ValueType::Double));
    let col = vec!["abc", "12", "def", "13", "NA"];
    assert_eq!(get_col_data_type(&col), Ok(ValueType::Character));
    let col = vec!["12", "abc", "13", "def"];
    assert_eq!(get_col_data_type(&col), Ok(ValueType::Integer));
    let col = vec!["12", "abc", "13", "def", "ghi"];
    assert_eq!(get_col_data_type(&col), Ok(ValueType::Character));
    let col = vec!["T", "F", "2021-01-01", "2021-01-02", "2021-01-03"];
    assert_eq!(get_col_data_type(&col), Ok(ValueType::Date));
    let col = vec!["11:59:37"];
    assert_eq!(get_col_data_type(&col), Ok(ValueType::Time));
}

#[test]
fn dominant_kind_of_nothing() {
    let none: Vec<&str> = vec![];
    assert_eq!(get_col_data_type(&none), Err(FormatError::EmptyColumnKind));
    let missing = vec!["", "NA", "null"];
    assert_eq!(get_col_data_type(&missing), Err(FormatError::EmptyColumnKind));
    assert_eq!(
        FormatError::EmptyColumnKind.message(),
        "the column holds no value that is not missing"
    );
}

#[test]
fn settings_are_checked_before_a_column_is_formatted() {
    assert_eq!(FormatConfig::new(2, 20, 2, false, 13).err(), Some(FormatError::InvalidSigfig));
    assert_eq!(FormatConfig::new(2, 20, 8, false, 13).err(), Some(FormatError::InvalidSigfig));
    assert_eq!(FormatConfig::new(1, 20, 3, false, 13).err(), Some(FormatError::InvalidMinWidth));
    assert_eq!(FormatConfig::new(5, 5, 3, false, 13).err(), Some(FormatError::InvalidMaxWidth));
    assert_eq!(FormatConfig::new(5, 4, 3, false, 13).err(), Some(FormatError::InvalidMaxWidth));
    assert_eq!(FormatConfig::new(1, 1, 9, false, 13).err(), Some(FormatError::InvalidSigfig));
    assert_eq!(
        FormatConfig::new(2, usize::MAX, 3, false, 13).err(),
        Some(FormatError::InvalidMaxWidth)
    );
    let config = FormatConfig::new(2, 20, 3, false, 13).unwrap();
    let column = vec!["1.5", "", "abc"];
    assert_eq!(
        format_column(&column, &config),
        Ok(vec!["1.5 ".to_string(), "NA  ".to_string(), "abc ".to_string()])
    );
    let bad = FormatConfig {
        min_column_width: 0,
        max_column_width: 20,
        significant_figures: 3,
        preserve_scientific: false,
        max_decimal_width: 13,
    };
    assert_eq!(format_column(&column, &bad), Err(FormatError::InvalidMinWidth));
}

#[test]
fn test_scientific_notation_preserve() {
    // Test data with mixed scientific notation and regular decimals
    let test_data = vec![
        vec!["value_type", "original_value"],
        vec!["scientific", "1.23e-7"],
        vec!["scientific_neg", "-4.56e-10"],
        vec!["decimal", "3.14159"],
        vec!["large_sci", "5.67e15"],
    ];

    // Convert to the format expected by format_strings
    let columns: Vec<Vec<&str>> = (0..test_data[0].len())
        .map(|col| test_data.iter().map(|row| row[col]).collect())
        .collect();

    // Test with preserve_scientific = true
    let result_preserve = format_strings(&columns[1], 2, 20, 3, true, 13);

    // Should preserve scientific notation in input
    assert!(result_preserve[1].trim().contains("1.23e-7"));
    assert!(result_preserve[2].trim().contains("-4.56e-10"));
    assert!(result_preserve[4].trim().contains("5.67e15"));

    // Test with preserve_scientific = false
    let result_no_preserve = format_strings(&columns[1], 2, 20, 3, false, 13);

    // Should convert scientific to decimal (within threshold)
    assert_eq!(result_no_preserve[1].trim(), "0.000000123");
    // -4.56e-10 converts to a very small decimal with sigfig formatting
    assert!(result_no_preserve[2].trim().contains("-0.0000000005")); // Scientific notation formatted as decimal
}

#[test]
fn test_scientific_notation_auto_convert() {
    // Test data with very small/large decimals
    let test_data = vec![
        vec!["type", "value"],
        vec!["very_small", "0.000000123"],
        vec!["very_large", "123456789012345"],
        vec!["normal", "3.14159"],
    ];

    let columns: Vec<Vec<&str>> = (0..test_data[0].len())
        .map(|col| test_data.iter().map(|row| row[col]).collect())
        .collect();

    // Test with small max_decimal_width to trigger auto-conversion
    let result_auto = format_strings(&columns[1], 2, 20, 3, false, 8);

    // Very small and large numbers should be auto-converted to scientific
    assert!(result_auto[1].trim().contains("e-")); // 1.23e-7 or similar
    assert!(result_auto[2].trim().contains("e")); // 1.23e14 or similar

    // Normal number should stay decimal
    assert_eq!(result_auto[3].trim(), "3.14");

    // Test with large max_decimal_width to prevent auto-conversion
    let result_no_auto = format_strings(&columns[1], 2, 20, 3, false, 20);

    // Should stay as decimals (but may be truncated with ellipsis due to column width)
    // The key is that it doesn't use scientific notation (no 'e')
    assert!(result_no_auto[1].trim().contains("0.000")); // Starts with small decimal
    assert!(!result_no_auto[3].trim().contains("e")); // Normal number has no 'e'
}

#[test]
fn test_scientific_notation_combined_flags() {
    // Test data combining both scenarios
    let test_data = vec![
        vec!["type", "value"],
        vec!["input_sci", "7.849613446523261e-05"], // Like the real data from norms.csv
        vec!["long_decimal", "0.000000000123456"],
        vec!["normal", "1.23456"],
    ];

    let columns: Vec<Vec<&str>> = (0..test_data[0].len())
        .map(|col| test_data.iter().map(|row| row[col]).collect())
        .collect();

    // Test both flags together
    let result_both = format_strings(&columns[1], 2, 25, 3, true, 10);

    // Input scientific notation should be preserved
    assert!(result_both[1].trim().contains("7.849613446523261e-05"));

    // Long decimal should be auto-converted
    assert!(result_both[2].trim().contains("e-"));

    // Normal decimal should use sigfig rules
    assert_eq!(result_both[3].trim(), "1.23");
}

#[test]
fn aligned_columns_in_full() {
    let column = vec!["original_value", "1.23e-7", "-4.56e-10", "3.14159", "5.67e15"];
    let out = format_strings(&column, 2, 20, 3, false, 13);
    assert_eq!(
        out,
        vec![
            "original_value ",
            " 0.000000123   ",
            "-0.0000000005  ",
            " 3.14          ",
            " 5.67e15       ",
        ]
    );
}

#[test]
fn a_reported_path_holds_the_extension_behind_a_point() {
    for path in ["a.b.arrow", "archive.arrow/", "dir.x/table.Feather", "..ipc", "a.parquet.ipc"] {
        assert!(is_arrow_file(path), "{}", path);
        let lower = path.to_lowercase();
        assert!(lower.contains(".arrow") || lower.contains(".feather") || lower.contains(".ipc"));
    }
    for path in ["", "arrow", "feather", ".ipc", "dir.arrow/file", "x.arrow.txt", "a.arrow.", "/"] {
        assert!(!is_arrow_file(path), "{}", path);
    }
    for path in ["parquet", "json", "no point at all", "dir/file"] {
        assert!(!is_parquet_file(path));
        assert!(!is_json_file(path));
        assert!(!is_arrow_file(path));
    }
}
