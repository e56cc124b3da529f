use tidy_viewer::datatype::{
    format_if_na, format_if_num, infer_type_from_string, is_date, is_date_time, is_double,
    is_integer, is_logical, is_na, is_na_string_padded, is_negative_number, is_number,
    is_scientific_notation, is_time, ValueType,
};

#[test]
fn datatype_test_is_scientific_notation() {
    // Valid scientific notation
    assert_eq!(is_scientific_notation("1.23e-7"), true);
    assert_eq!(is_scientific_notation("5.67e15"), true);
    assert_eq!(is_scientific_notation("-4.56e-10"), true);
    assert_eq!(is_scientific_notation("+2.34e8"), true);
    assert_eq!(is_scientific_notation("1e5"), true);
    assert_eq!(is_scientific_notation("3.14E-2"), true);
    assert_eq!(is_scientific_notation("7.849613446523261e-05"), true);

    // Invalid scientific notation (should be false)
    assert_eq!(is_scientific_notation("1.23"), false);
    assert_eq!(is_scientific_notation("123"), false);
    assert_eq!(is_scientific_notation("0.0001"), false);
    assert_eq!(is_scientific_notation("e5"), false);
    assert_eq!(is_scientific_notation("1.23e"), false);
    assert_eq!(is_scientific_notation("text"), false);
    assert_eq!(is_scientific_notation(""), false);
}

#[test]
fn datatype_test_format_if_num_preserve_scientific() {
    // Test preserve scientific functionality
    assert_eq!(format_if_num("1.23e-7", 3, true, 13), "1.23e-7");
    assert_eq!(format_if_num("5.67e15", 3, true, 13), "5.67e15");
    assert_eq!(format_if_num("-4.56e-10", 3, true, 13), "-4.56e-10");

    // Test normal numbers with preserve scientific (should use sigfig)
    assert_eq!(format_if_num("1.23456", 3, true, 13), "1.23");
    assert_eq!(format_if_num("123.456", 3, true, 13), "123.");

    // Test without preserve scientific (should convert to decimal)
    assert_eq!(format_if_num("1.23e-7", 3, false, 13), "0.000000123");
}

#[test]
fn datatype_test_format_if_num_max_decimal_width() {
    // Test auto-conversion based on decimal width
    // Very small number should be converted to scientific notation
    assert_eq!(format_if_num("0.000000123", 3, false, 8), "1.23e-7");

    // Large number should be converted to scientific notation
    assert_eq!(format_if_num("123456789012345", 3, false, 8), "1.23e14");

    // Normal number within threshold should stay decimal
    assert_eq!(format_if_num("3.14159", 3, false, 8), "3.14");

    // Test with higher threshold
    assert_eq!(format_if_num("0.000000123", 3, false, 15), "0.000000123");
}

#[test]
fn datatype_test_format_if_num_combined_flags() {
    // Test both preserve_scientific and max_decimal_width together
    // Scientific notation input should be preserved regardless of width
    assert_eq!(format_if_num("1.23e-7", 3, true, 5), "1.23e-7");

    // Long decimal should be auto-converted even with preserve_scientific
    assert_eq!(format_if_num("0.000000123", 3, true, 8), "1.23e-7");
}

#[test]
fn test_is_logical() {
    assert_eq!(is_logical("T"), true);
    assert_eq!(is_logical("t"), true);
    assert_eq!(is_logical("F"), true);
    assert_eq!(is_logical("f"), true);
    assert_eq!(is_logical("TRUE"), true);
    assert_eq!(is_logical("FALSE"), true);
    assert_eq!(is_logical("True"), true);
    assert_eq!(is_logical("False"), true);
    assert_eq!(is_logical("true"), true);
    assert_eq!(is_logical("false"), true);
}

#[test]
fn test_is_na() {
    assert_eq!(is_na(""), true);
    assert_eq!(is_na("NA"), true);
    assert_eq!(is_na("missing"), true);
    assert_eq!(is_na("na"), true);
    assert_eq!(is_na("1"), false);
    assert_eq!(is_na("0"), false);
}

#[test]
fn test_is_number() {
    // Integers
    assert_eq!(is_number("12345"), true);
    assert_eq!(is_number("   12345"), true);
    assert_eq!(is_number("12345   "), true);
    assert_eq!(is_number("   12345   "), true);
    assert_eq!(is_number("-12345"), true);
    assert_eq!(is_number("   -12345"), true);
    assert_eq!(is_number("-12345   "), true);
    assert_eq!(is_number("   -12345   "), true);

    // Doubles
    assert_eq!(is_number("123.45"), true);
    assert_eq!(is_number("   123.45"), true);
    assert_eq!(is_number("123.45   "), true);
    assert_eq!(is_number("   123.45   "), true);
    assert_eq!(is_number("0."), true);
    assert_eq!(is_number(".0"), true);
    assert_eq!(is_number("-123.45"), true);
    assert_eq!(is_number("   -123.45"), true);
    assert_eq!(is_number("-123.45   "), true);
    assert_eq!(is_number("   -123.45   "), true);

    // Misc
    assert_eq!(is_number("123text"), false);
    assert_eq!(is_number("text123"), false);
    assert_eq!(is_number("123.123.123"), false);
}

#[test]
fn test_is_negative_number() {
    assert_eq!(is_negative_number("-12345"), true);
    assert_eq!(is_negative_number("   -12345"), true);
    assert_eq!(is_negative_number("-12345   "), true);
    assert_eq!(is_negative_number("   -12345   "), true);
    assert_eq!(is_negative_number("-12.345"), true);
    assert_eq!(is_negative_number("   -12.345"), true);
    assert_eq!(is_negative_number("-12.345   "), true);
    assert_eq!(is_negative_number("   -12.345   "), true);
    assert_eq!(is_negative_number("0.0"), false);
    assert_eq!(is_negative_number("0."), false);
    assert_eq!(is_negative_number("text"), false);
    assert_eq!(is_negative_number("-123.123.123"), false);
}

#[test]
fn test_real_norms_csv_data() {
    // Test with the actual problematic value from norms.csv
    let scientific_value = "7.849613446523261e-05";

    // Test preserve functionality
    let preserved = format_if_num(scientific_value, 3, true, 13);
    assert_eq!(preserved, "7.849613446523261e-05");

    // Test without preserve (should convert to decimal)
    let not_preserved = format_if_num(scientific_value, 3, false, 13);
    assert!(not_preserved.starts_with("0.0000"));

    // Test auto-conversion with narrow width
    let auto_converted = format_if_num("0.0000785", 3, false, 8);
    assert!(auto_converted.contains("e-"));
}

#[test]
fn classifier_priority() {
    assert_eq!(infer_type_from_string("11:59:37"), ValueType::Time);
    assert_eq!(infer_type_from_string("T"), ValueType::Boolean);
    assert_eq!(infer_type_from_string("007"), ValueType::Character);
    assert_eq!(infer_type_from_string("2021-01-01"), ValueType::Date);
    assert_eq!(infer_type_from_string(""), ValueType::Na);
    assert_eq!(infer_type_from_string("true"), ValueType::Boolean);
    assert_eq!(infer_type_from_string("123"), ValueType::Integer);
    assert_eq!(infer_type_from_string("123.45"), ValueType::Double);
    assert_eq!(infer_type_from_string("2020-10-09"), ValueType::Date);
    assert_eq!(infer_type_from_string("hello"), ValueType::Character);
    assert_eq!(infer_type_from_string("11:59:37 UTC"), ValueType::DateTime);
    assert_eq!(infer_type_from_string("1"), ValueType::Boolean);
    assert_eq!(infer_type_from_string("12"), ValueType::Integer);
    assert_eq!(infer_type_from_string("1e5"), ValueType::Double);
    assert_eq!(infer_type_from_string("missing"), ValueType::Na);
}

#[test]
fn boolean_spellings_are_exact() {
    for word in ["true", "false", "TRUE", "FALSE", "True", "False", "t", "f", "T", "F", "1", "0"] {
        assert!(is_logical(word), "{}", word);
    }
    for word in ["", " true", "true ", "tRUE", "yes", "no", "10", "Truely", "xTRUE", "2"] {
        assert!(!is_logical(word), "{}", word);
    }
}

#[test]
fn integer_spellings() {
    for word in ["0", "7", "42", "+42", "-42", " 42 ", "\t-9\n", "1000000", "-0", "+0"] {
        assert!(is_integer(word), "{}", word);
    }
    for word in ["", " ", "007", "00", "1.0", "1e3", "4 2", "--4", "+", "-", "abc", "12a"] {
        assert!(!is_integer(word), "{}", word);
    }
}

#[test]
fn double_spellings() {
    for word in [
        "123.45", "-456.78", "123", " 1.5 ", "0.", ".0", "1e5", "1E5", "1.e5", ".5e-3", "+2.5",
        "inf", "-inf", "Infinity", "NaN", "nan", "+NAN", "1e400", "0", "-0.5", "0e5", "1e007",
        "\u{3000}1.5",
    ] {
        assert!(is_double(word), "{}", word);
    }
    for word in [
        "", " ", ".", "e5", "1e", "1e+", "abc", "1.2.3", "1 2", "0x10", "1_000", "infinit", "in",
        "+", "-", "1e5.0", "--1", "007", "00", "00.5", "-01", "01e5",
    ] {
        assert!(!is_double(word), "{}", word);
    }
}

#[test]
fn time_and_date_spellings() {
    assert!(is_time("11:59:37"));
    assert!(is_time("23:45:12"));
    assert!(is_time("00:00:00"));
    assert!(!is_time("25:00:00"));
    assert!(!is_time("24:00:00"));
    assert!(!is_time("12:60:00"));
    assert!(!is_time("12:00:60"));
    assert!(!is_time("11:59:37 UTC"));
    assert!(!is_time(" 11:59:37"));
    assert!(!is_time("abc"));
    assert!(is_date_time("11:59:37"));
    assert!(is_date_time("11:59:37 UTC"));
    assert!(is_date_time("23:45:12"));
    assert!(!is_date_time("25:00:00"));
    assert!(!is_date_time("abc"));
    assert!(!is_date_time(" 11:59:37"));
    assert!(is_date("2020-10-09"));
    assert!(is_date("1999-12-31"));
    assert!(is_date("on 2020-10-09 at noon"));
    assert!(!is_date("2020/10/09"));
    assert!(!is_date("2020-1-09"));
    assert!(!is_date("abc"));
    assert!(!is_date(""));
}

#[test]
fn missing_spellings_are_exact() {
    for word in [
        "", "NA", "N/A", "NaN", "NAN", "null", "Null", "None", "none", "na", "nan", "missing",
        "n/a",
    ] {
        assert!(is_na(word), "{}", word);
    }
    for word in [" ", "NA ", " NA", "hello", "NULL", "Missing", "n", "N", "nil", "1", "0"] {
        assert!(!is_na(word), "{}", word);
    }
}

#[test]
fn padded_missing_spellings() {
    for word in ["", "NA", " NA", "NA   ", "  NA  ", "  n/a", "missing  ", "\tnull\n"] {
        assert!(is_na_string_padded(word), "{}", word);
    }
    for word in [" ", "   ", "x NA", "NA x", "hello", " 1 "] {
        assert!(!is_na_string_padded(word), "{}", word);
    }
}

#[test]
fn negative_number_quirks() {
    assert!(is_negative_number("-"));
    assert!(is_negative_number("-5x"));
    assert!(is_negative_number("-5x7"));
    assert!(is_negative_number("-1.5  "));
    assert!(is_negative_number("- "));
    assert!(is_negative_number("-\n"));
    assert!(!is_negative_number("-5xy"));
    assert!(!is_negative_number("-5\n5"));
    assert!(!is_negative_number("5"));
    assert!(!is_negative_number(""));
    assert!(!is_negative_number("x-5"));
}

#[test]
fn na_canonical_form_is_idempotent() {
    for word in ["", "NA", "n/a", "missing", "hello", "1.5", " NA", "None"] {
        let once = format_if_na(word);
        let twice = format_if_na(&once);
        assert_eq!(once, twice);
    }
    assert_eq!(format_if_na(""), "NA");
    assert_eq!(format_if_na("null"), "NA");
    assert_eq!(format_if_na("hello"), "hello");
    assert_eq!(format_if_na(" NA"), " NA");
}

#[test]
fn scientific_fallback() {
    assert!(format_if_num("0.000000123", 3, false, 8).contains("e-"));
    assert_eq!(format_if_num("1.23e-7", 3, true, 13), "1.23e-7");
    assert_eq!(format_if_num("1.23e-7", 3, false, 13), "0.000000123");
    assert_eq!(format_if_num("999600", 3, false, 4), "1.00e6");
    assert_eq!(format_if_num("-0.00001234", 4, false, 5), "-1.234e-5");
    assert_eq!(format_if_num("12345678", 3, false, 20), "12345678");
    assert_eq!(format_if_num("1234.5", 3, false, 2), "1.23e3");
    assert_eq!(format_if_num("123.5", 3, false, 2), "123.");
    assert_eq!(format_if_num("0.001", 3, false, 2), "0.001");
}

#[test]
fn text_that_is_no_number_passes_through() {
    assert_eq!(format_if_num("hello", 3, false, 13), "hello");
    assert_eq!(format_if_num("", 3, false, 13), "");
    assert_eq!(format_if_num(" 1.23456", 3, false, 13), " 1.23456");
    assert_eq!(format_if_num("1.23456 ", 3, false, 13), "1.23456 ");
    assert_eq!(format_if_num("1.2.3", 3, false, 13), "1.2.3");
    assert_eq!(format_if_num("NA", 3, false, 13), "NA");
    assert_eq!(format_if_num("007", 3, false, 13), "007");
    // looks like scientific notation, but is no number
    assert!(is_scientific_notation("007e5"));
    assert!(!is_double("007e5"));
    assert_eq!(format_if_num("007e5", 3, false, 13), "007e5");
    assert_eq!(format_if_num("007e5", 3, true, 13), "007e5");
    assert_eq!(format_if_num("02134", 3, false, 13), "02134");
    assert_eq!(format_if_num("2/ 2.5 Gallon", 3, false, 13), "2/ 2.5 Gallon");
}

#[test]
fn values_that_are_not_finite() {
    assert_eq!(format_if_num("inf", 3, false, 13), "inf");
    assert_eq!(format_if_num("+Infinity", 3, false, 13), "inf");
    assert_eq!(format_if_num("nan", 3, false, 13), "NaN");
    assert_eq!(format_if_num("-nan", 3, false, 13), "NaN");
    assert_eq!(format_if_num("-inf", 3, false, 13), "-NaN");
    assert_eq!(format_if_num("-inf", 3, false, 3), "-inf");
    assert_eq!(format_if_num("1e400", 3, false, 13), "inf");
    assert_eq!(format_if_num("1e-400", 3, false, 13), "0");
    assert_eq!(format_if_num("0e999999999999999999999999999999", 3, false, 13), "0");
    assert_eq!(format_if_num("1e99999999999999999999999999999999", 3, false, 13), "inf");
    assert_eq!(format_if_num("1e-99999999999999999999999999999999", 3, false, 13), "0");
}

#[test]
fn test_is_scientific_notation() {
    // Valid scientific notation
    assert_eq!(is_scientific_notation("1.23e-7"), true);
    assert_eq!(is_scientific_notation("5.67e15"), true);
    assert_eq!(is_scientific_notation("-4.56e-10"), true);
    assert_eq!(is_scientific_notation("+2.34e8"), true);
    assert_eq!(is_scientific_notation("1e5"), true);
    assert_eq!(is_scientific_notation("3.14E-2"), true);
    assert_eq!(is_scientific_notation("7.849613446523261e-05"), true);

    // Invalid scientific notation (should be false)
    assert_eq!(is_scientific_notation("1.23"), false);
    assert_eq!(is_scientific_notation("123"), false);
    assert_eq!(is_scientific_notation("0.0001"), false);
    assert_eq!(is_scientific_notation("e5"), false);
    assert_eq!(is_scientific_notation("1.23e"), false);
    assert_eq!(is_scientific_notation("text"), false);
    assert_eq!(is_scientific_notation(""), false);
}

#[test]
fn test_format_if_num_preserve_scientific() {
    // Test preserve scientific functionality
    assert_eq!(format_if_num("1.23e-7", 3, true, 13), "1.23e-7");
    assert_eq!(format_if_num("5.67e15", 3, true, 13), "5.67e15");
    assert_eq!(format_if_num("-4.56e-10", 3, true, 13), "-4.56e-10");

    // Test normal numbers with preserve scientific (should use sigfig)
    assert_eq!(format_if_num("1.23456", 3, true, 13), "1.23");
    assert_eq!(format_if_num("123.456", 3, true, 13), "123.");

    // Test without preserve scientific (should convert to decimal)
    assert_eq!(format_if_num("1.23e-7", 3, false, 13), "0.000000123");
}

#[test]
fn test_format_if_num_max_decimal_width() {
    // Test auto-conversion based on decimal width
    // Very small number should be converted to scientific notation
    assert_eq!(format_if_num("0.000000123", 3, false, 8), "1.23e-7");

    // Large number should be converted to scientific notation
    assert_eq!(format_if_num("123456789012345", 3, false, 8), "1.23e14");

    // Normal number within threshold should stay decimal
    assert_eq!(format_if_num("3.14159", 3, false, 8), "3.14");

    // Test with higher threshold
    assert_eq!(format_if_num("0.000000123", 3, false, 15), "0.000000123");
}

#[test]
fn test_format_if_num_combined_flags() {
    // Test both preserve_scientific and max_decimal_width together
    // Scientific notation input should be preserved regardless of width
    assert_eq!(format_if_num("1.23e-7", 3, true, 5), "1.23e-7");

    // Long decimal should be auto-converted even with preserve_scientific
    assert_eq!(format_if_num("0.000000123", 3, true, 8), "1.23e-7");
}
