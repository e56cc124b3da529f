//! Column formatting for tabular text: classification of raw cells,
//! significant-figure formatting of numbers held as exact decimals, and
//! fixed-width layout of whole columns and tables.

pub mod datatype;
pub mod error;
pub mod files;
pub mod table;
pub mod text;
pub mod types;
pub mod width;

pub use datatype::column::{
    calculate_column_width, format_column, format_strings, FormatConfig,
};
pub use datatype::sigfig::{get_final_string, parse_number, Decimal, DecimalSplits, Number};
pub use datatype::{
    format_if_na, format_if_num, get_col_data_type, infer_type_from_string, is_date,
    is_date_time, is_double, is_integer, is_logical, is_na, is_na_string_padded,
    is_negative_number, is_number, is_scientific_notation, is_time, parse_delimiter, ValueType,
};
pub use error::FormatError;
pub use table::{format_dimensions_colored, format_table, get_num_cols_to_print};
pub use types::{ColorScheme, FormatOptions, StringType};
