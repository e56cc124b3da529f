//! Options for formatting a table, and the colours of its parts.

use vstd::prelude::*;
use crate::text::{chars_of, push_str, string_of};

verus! {

/// The colours of the parts of a table, each as red, green and blue.
#[derive(Debug, Clone)]
pub struct ColorScheme {
    /// Row numbers, dimensions and footers.
    pub meta_color: [u8; 3],
    /// The header row.
    pub header_color: [u8; 3],
    /// Ordinary cells.
    pub std_color: [u8; 3],
    /// Missing values.
    pub na_color: [u8; 3],
    /// Negative numbers.
    pub neg_num_color: [u8; 3],
}

/// The five colours of a scheme, in the order of the fields of
/// [`ColorScheme`].
pub open spec fn scheme_colors(c: ColorScheme) -> Seq<Seq<u8>> {
    seq![c.meta_color@, c.header_color@, c.std_color@, c.na_color@, c.neg_num_color@]
}

impl ColorScheme {
    /// Cool blues and greys; the scheme used where none is chosen.
    pub fn nord() -> (c: Self)
        ensures
            scheme_colors(c) == seq![
                seq![143u8, 188u8, 187u8],
                seq![94u8, 129u8, 172u8],
                seq![216u8, 222u8, 233u8],
                seq![191u8, 97u8, 106u8],
                seq![208u8, 135u8, 112u8],
            ],
    {
        let c = ColorScheme {
            meta_color: [143, 188, 187],
            header_color: [94, 129, 172],
            std_color: [216, 222, 233],
            na_color: [191, 97, 106],
            neg_num_color: [208, 135, 112],
        };
        proof {
            lemma_scheme(c, 143, 188, 187, 94, 129, 172, 216, 222, 233, 191, 97, 106, 208, 135, 112);
        }
        c
    }

    /// The colours of the One Dark editor theme.
    pub fn one_dark() -> (c: Self)
        ensures
            scheme_colors(c) == seq![
                seq![152u8, 195u8, 121u8],
                seq![97u8, 175u8, 239u8],
                seq![171u8, 178u8, 191u8],
                seq![224u8, 108u8, 117u8],
                seq![229u8, 192u8, 123u8],
            ],
    {
        let c = ColorScheme {
            meta_color: [152, 195, 121],
            header_color: [97, 175, 239],
            std_color: [171, 178, 191],
            na_color: [224, 108, 117],
            neg_num_color: [229, 192, 123],
        };
        proof {
            lemma_scheme(c, 152, 195, 121, 97, 175, 239, 171, 178, 191, 224, 108, 117, 229, 192, 123);
        }
        c
    }

    /// Warm, earthy colours.
    pub fn gruvbox() -> (c: Self)
        ensures
            scheme_colors(c) == seq![
                seq![184u8, 187u8, 38u8],
                seq![215u8, 153u8, 33u8],
                seq![235u8, 219u8, 178u8],
                seq![204u8, 36u8, 29u8],
                seq![251u8, 73u8, 52u8],
            ],
    {
        let c = ColorScheme {
            meta_color: [184, 187, 38],
            header_color: [215, 153, 33],
            std_color: [235, 219, 178],
            na_color: [204, 36, 29],
            neg_num_color: [251, 73, 52],
        };
        proof {
            lemma_scheme(c, 184, 187, 38, 215, 153, 33, 235, 219, 178, 204, 36, 29, 251, 73, 52);
        }
        c
    }

    /// The colours of the Dracula theme.
    pub fn dracula() -> (c: Self)
        ensures
            scheme_colors(c) == seq![
                seq![98u8, 114u8, 164u8],
                seq![80u8, 250u8, 123u8],
                seq![248u8, 248u8, 242u8],
                seq![255u8, 121u8, 198u8],
                seq![188u8, 63u8, 60u8],
            ],
    {
        let c = ColorScheme {
            meta_color: [98, 114, 164],
            header_color: [80, 250, 123],
            std_color: [248, 248, 242],
            na_color: [255, 121, 198],
            neg_num_color: [188, 63, 60],
        };
        proof {
            lemma_scheme(c, 98, 114, 164, 80, 250, 123, 248, 248, 242, 255, 121, 198, 188, 63, 60);
        }
        c
    }

    /// Soft colours for a light background.
    pub fn solarized_light() -> (c: Self)
        ensures
            scheme_colors(c) == seq![
                seq![108u8, 113u8, 193u8],
                seq![88u8, 110u8, 117u8],
                seq![131u8, 148u8, 150u8],
                seq![220u8, 50u8, 47u8],
                seq![42u8, 161u8, 152u8],
            ],
    {
        let c = ColorScheme {
            meta_color: [108, 113, 193],
            header_color: [88, 110, 117],
            std_color: [131, 148, 150],
            na_color: [220, 50, 47],
            neg_num_color: [42, 161, 152],
        };
        proof {
            lemma_scheme(c, 108, 113, 193, 88, 110, 117, 131, 148, 150, 220, 50, 47, 42, 161, 152);
        }
        c
    }
}

proof fn lemma_triple(a: [u8; 3], x: u8, y: u8, z: u8)
    requires
        a[0] == x,
        a[1] == y,
        a[2] == z,
    ensures
        a@ == seq![x, y, z],
{
    assert(a@ =~= seq![x, y, z]);
}

proof fn lemma_scheme(
    c: ColorScheme,
    m0: u8,
    m1: u8,
    m2: u8,
    h0: u8,
    h1: u8,
    h2: u8,
    s0: u8,
    s1: u8,
    s2: u8,
    n0: u8,
    n1: u8,
    n2: u8,
    g0: u8,
    g1: u8,
    g2: u8,
)
    requires
        c.meta_color[0] == m0 && c.meta_color[1] == m1 && c.meta_color[2] == m2,
        c.header_color[0] == h0 && c.header_color[1] == h1 && c.header_color[2] == h2,
        c.std_color[0] == s0 && c.std_color[1] == s1 && c.std_color[2] == s2,
        c.na_color[0] == n0 && c.na_color[1] == n1 && c.na_color[2] == n2,
        c.neg_num_color[0] == g0 && c.neg_num_color[1] == g1 && c.neg_num_color[2] == g2,
    ensures
        scheme_colors(c) == seq![
            seq![m0, m1, m2],
            seq![h0, h1, h2],
            seq![s0, s1, s2],
            seq![n0, n1, n2],
            seq![g0, g1, g2],
        ],
{
    lemma_triple(c.meta_color, m0, m1, m2);
    lemma_triple(c.header_color, h0, h1, h2);
    lemma_triple(c.std_color, s0, s1, s2);
    lemma_triple(c.na_color, n0, n1, n2);
    lemma_triple(c.neg_num_color, g0, g1, g2);
}

impl Default for ColorScheme {
    fn default() -> (c: Self)
        ensures
            scheme_colors(c) == seq![
                seq![143u8, 188u8, 187u8],
                seq![94u8, 129u8, 172u8],
                seq![216u8, 222u8, 233u8],
                seq![191u8, 97u8, 106u8],
                seq![208u8, 135u8, 112u8],
            ],
    {
        ColorScheme::nord()
    }
}

/// How a table is to be formatted.
#[derive(Debug, Clone)]
pub struct FormatOptions {
    /// The greatest number of data rows shown; all of them if `None`.
    pub max_rows: Option<usize>,
    pub max_col_width: usize,
    pub min_col_width: usize,
    pub use_color: bool,
    pub colors: ColorScheme,
    pub delimiter: String,
    pub significant_figures: usize,
    pub preserve_scientific: bool,
    pub max_decimal_width: usize,
    /// Whether the line with the dimensions of the table is left out.
    pub no_dimensions: bool,
    /// Whether the row numbers are left out.
    pub no_row_numbering: bool,
    pub title: Option<String>,
    pub footer: Option<String>,
}

impl Default for FormatOptions {
    fn default() -> (o: Self)
        ensures
            o.max_rows == Some(25usize),
            o.max_col_width == 20,
            o.min_col_width == 2,
            o.use_color,
            scheme_colors(o.colors) == seq![
                seq![143u8, 188u8, 187u8],
                seq![94u8, 129u8, 172u8],
                seq![216u8, 222u8, 233u8],
                seq![191u8, 97u8, 106u8],
                seq![208u8, 135u8, 112u8],
            ],
            o.delimiter@ == ","@,
            o.significant_figures == 3,
            !o.preserve_scientific,
            o.max_decimal_width == 13,
            !o.no_dimensions,
            !o.no_row_numbering,
            o.title is None,
            o.footer is None,
    {
        FormatOptions {
            max_rows: Some(25),
            max_col_width: 20,
            min_col_width: 2,
            use_color: true,
            colors: ColorScheme::nord(),
            delimiter: string_of(&chars_of(",")),
            significant_figures: 3,
            preserve_scientific: false,
            max_decimal_width: 13,
            no_dimensions: false,
            no_row_numbering: false,
            title: None,
            footer: None,
        }
    }
}

/// A column of finished cells.
#[derive(Debug, Clone)]
pub struct StringType(pub Vec<String>);

/// The texts of `lines`, each followed by a line feed.
pub open spec fn lines_text(lines: Seq<String>) -> Seq<char>
    decreases lines.len(),
{
    if lines.len() == 0 {
        Seq::empty()
    } else {
        lines_text(lines.drop_last()) + lines.last()@ + seq!['\n']
    }
}

impl StringType {
    /// The cells, each on a line of its own, and the last of them once
    /// more behind them.
    pub fn text(&self) -> (r: String)
        requires
            self.0@.len() > 0,
        ensures
            r@ == lines_text(self.0@) + self.0@.last()@,
    {
        let mut out: Vec<char> = Vec::new();
        let mut i: usize = 0;
        while i < self.0.len()
            invariant
                i <= self.0@.len(),
                out@ == lines_text(self.0@.take(i as int)),
            decreases self.0.len() - i,
        {
            assert(self.0@.take(i + 1).drop_last() =~= self.0@.take(i as int));
            push_str(&mut out, self.0[i].as_str());
            out.push('\n');
            i = i + 1;
        }
        assert(self.0@.take(self.0@.len() as int) =~= self.0@);
        push_str(&mut out, self.0[self.0.len() - 1].as_str());
        string_of(&out)
    }
}

} // verus!
