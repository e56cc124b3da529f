use tidy_viewer::error::FormatError;
use tidy_viewer::table::{format_dimensions_colored, format_table, get_num_cols_to_print};
use tidy_viewer::types::{ColorScheme, FormatOptions, StringType};

fn plain() -> FormatOptions {
    let mut options = FormatOptions::default();
    options.use_color = false;
    options
}

fn rows(data: &[&[&str]]) -> Vec<Vec<String>> {
    data.iter().map(|r| r.iter().map(|c| c.to_string()).collect()).collect()
}

fn names(data: &[&str]) -> Option<Vec<String>> {
    Some(data.iter().map(|c| c.to_string()).collect())
}

#[test]
fn default_options() {
    let o = FormatOptions::default();
    assert_eq!(o.max_rows, Some(25));
    assert_eq!(o.max_col_width, 20);
    assert_eq!(o.min_col_width, 2);
    assert!(o.use_color);
    assert_eq!(o.delimiter, ",");
    assert_eq!(o.significant_figures, 3);
    assert!(!o.preserve_scientific);
    assert_eq!(o.max_decimal_width, 13);
    assert!(!o.no_dimensions);
    assert!(!o.no_row_numbering);
    assert_eq!(o.title, None);
    assert_eq!(o.footer, None);
    assert_eq!(o.colors.meta_color, [143, 188, 187]);
}

#[test]
fn color_schemes() {
    let c = ColorScheme::nord();
    assert_eq!(
        (c.meta_color, c.header_color, c.std_color, c.na_color, c.neg_num_color),
        ([143, 188, 187], [94, 129, 172], [216, 222, 233], [191, 97, 106], [208, 135, 112])
    );
    let c = ColorScheme::one_dark();
    assert_eq!(
        (c.meta_color, c.header_color, c.std_color, c.na_color, c.neg_num_color),
        ([152, 195, 121], [97, 175, 239], [171, 178, 191], [224, 108, 117], [229, 192, 123])
    );
    let c = ColorScheme::gruvbox();
    assert_eq!(
        (c.meta_color, c.header_color, c.std_color, c.na_color, c.neg_num_color),
        ([184, 187, 38], [215, 153, 33], [235, 219, 178], [204, 36, 29], [251, 73, 52])
    );
    let c = ColorScheme::dracula();
    assert_eq!(
        (c.meta_color, c.header_color, c.std_color, c.na_color, c.neg_num_color),
        ([98, 114, 164], [80, 250, 123], [248, 248, 242], [255, 121, 198], [188, 63, 60])
    );
    let c = ColorScheme::solarized_light();
    assert_eq!(
        (c.meta_color, c.header_color, c.std_color, c.na_color, c.neg_num_color),
        ([108, 113, 193], [88, 110, 117], [131, 148, 150], [220, 50, 47], [42, 161, 152])
    );
    assert_eq!(ColorScheme::default().header_color, ColorScheme::nord().header_color);
}

#[test]
fn dimensions_in_color() {
    assert_eq!(
        format_dimensions_colored(3, 12, &ColorScheme::nord()),
        "tv dim: \u{1b}[38;2;143;188;187m3\u{1b}[39m x \u{1b}[38;2;143;188;187m12\u{1b}[39m\n"
    );
}

#[test]
fn a_table_without_rows() {
    let out = format_table(vec![], names(&["a"]), &plain(), 80);
    assert_eq!(out, Ok("No data to display".to_string()));
}

#[test]
fn a_plain_table() {
    let data = rows(&[&["1.5", "x"], &["-22.25", ""], &["3", "long text"]]);
    let out = format_table(data, names(&["num", "txt"]), &plain(), 80).unwrap();
    let expected = "        tv dim: 3 x 2\n        \
                    num   txt       \n     \
                    1    1.5 x         \n     \
                    2  -22.2 NA        \n     \
                    3    3   long text \n";
    assert_eq!(out, expected);
}

#[test]
fn a_table_without_numbers_and_dimensions() {
    let mut options = plain();
    options.no_row_numbering = true;
    options.no_dimensions = true;
    options.title = Some("Title".to_string());
    options.footer = Some("the end".to_string());
    let data = rows(&[&["a", "b"], &["c", "d"]]);
    let out = format_table(data, None, &options, 80).unwrap();
    assert_eq!(out, "Title\n\na  b  \nc  d  \nthe end\n");
}

#[test]
fn rows_and_columns_that_are_left_out() {
    let mut options = plain();
    options.max_rows = Some(2);
    let data = rows(&[&["1", "aaaa", "x"], &["2", "bbbb", "y"], &["3", "cccc", "z"]]);
    let out = format_table(data, names(&["n", "word", "last"]), &options, 16).unwrap();
    let expected = "        tv dim: 3 x 3\n        \
                    n  word \n     \
                    1  1  aaaa \n     \
                    2  2  bbbb \n        \
                    \u{2026} with 1 more rows and 1 more variables: last";
    assert_eq!(out, expected);
    let data = rows(&[&["1", "aaaa", "x"]]);
    let out = format_table(data, names(&["n", "word", "last"]), &plain(), 10).unwrap();
    let expected = "        tv dim: 1 x 3\n        \
                    n  \n     \
                    1  1  \n        \
                    \u{2026} and 2 more variables: word, last";
    assert_eq!(out, expected);
}

#[test]
fn a_table_in_color() {
    let mut options = FormatOptions::default();
    options.no_dimensions = true;
    let data = rows(&[&["-1"], &["NA"], &["x"]]);
    let out = format_table(data, names(&["h"]), &options, 80).unwrap();
    let expected = "        \u{1b}[38;2;94;129;172mh  \u{1b}[39m\n\
                    \u{1b}[38;2;143;188;187m     1  \u{1b}[39m\u{1b}[38;2;208;135;112m-1 \u{1b}[39m\n\
                    \u{1b}[38;2;143;188;187m     2  \u{1b}[39m\u{1b}[38;2;191;97;106mNA \u{1b}[39m\n\
                    \u{1b}[38;2;143;188;187m     3  \u{1b}[39m\u{1b}[38;2;216;222;233mx  \u{1b}[39m\n";
    assert_eq!(out, expected);
}

#[test]
fn settings_that_are_not_valid() {
    let data = rows(&[&["1"]]);
    let mut options = plain();
    options.significant_figures = 2;
    assert_eq!(format_table(data.clone(), None, &options, 80), Err(FormatError::InvalidSigfig));
    options.significant_figures = 8;
    assert_eq!(format_table(data.clone(), None, &options, 80), Err(FormatError::InvalidSigfig));
    let mut options = plain();
    options.min_col_width = 1;
    assert_eq!(format_table(data.clone(), None, &options, 80), Err(FormatError::InvalidMinWidth));
    let mut options = plain();
    options.max_col_width = 2;
    assert_eq!(format_table(data.clone(), None, &options, 80), Err(FormatError::InvalidMaxWidth));
    assert_eq!(format_table(vec![], None, &options, 80), Err(FormatError::InvalidMaxWidth));
    assert_eq!(
        FormatError::InvalidSigfig.message(),
        "significant figures must be between 3 and 7"
    );
    assert_eq!(
        FormatError::InvalidMinWidth.message(),
        "the minimum column width must be at least 2"
    );
    assert_eq!(
        FormatError::InvalidMaxWidth.message(),
        "the maximum column width must exceed the minimum and be less than the largest integer"
    );
}

#[test]
fn columns_that_fit_the_terminal() {
    let first = vec!["aaaa ".to_string(), "bbbb ".to_string(), "cccc ".to_string()];
    let vp = vec![first, vec![]];
    assert_eq!(get_num_cols_to_print(3, vp.clone(), (80, 24)), 3);
    assert_eq!(get_num_cols_to_print(3, vp.clone(), (23, 24)), 3);
    assert_eq!(get_num_cols_to_print(3, vp.clone(), (22, 24)), 2);
    assert_eq!(get_num_cols_to_print(3, vp.clone(), (13, 24)), 1);
    assert_eq!(get_num_cols_to_print(3, vp.clone(), (12, 24)), 0);
    assert_eq!(get_num_cols_to_print(2, vp.clone(), (80, 24)), 2);
    assert_eq!(get_num_cols_to_print(0, vp, (80, 24)), 0);
}

#[test]
fn a_column_as_lines() {
    let column = StringType(vec!["a".to_string(), "b".to_string()]);
    assert_eq!(column.text(), "a\nb\nb");
    let column = StringType(vec!["only".to_string()]);
    assert_eq!(column.text(), "only\nonly");
}
