//! Which reader a file calls for, told from the extension of its name.

use vstd::prelude::*;
use std::path::Path;
use crate::datatype::{lower, lower_char};
use crate::text::{chars_of, text_is};

verus! {

/// The lower-case form of a text, letter by letter.
pub open spec fn lowered(s: Seq<char>) -> Seq<char> {
    s.map_values(|c: char| lower(c))
}

/// Whether an extension names a Parquet file.
pub open spec fn is_parquet_word(ext: Seq<char>) -> bool {
    lowered(ext) == "parquet"@
}

/// Whether an extension names a JSON file.
pub open spec fn is_json_word(ext: Seq<char>) -> bool {
    lowered(ext) == "json"@
}

/// Whether an extension names an Arrow IPC file.
pub open spec fn is_arrow_word(ext: Seq<char>) -> bool {
    lowered(ext) == "feather"@ || lowered(ext) == "arrow"@ || lowered(ext) == "ipc"@
}

/// Whether `ext` can be the extension of a file name in `path`, whatever
/// part of the path is taken as the file name: it holds no point, and in
/// the path it stands directly behind a point that is not the first
/// character.
pub open spec fn stands_as_extension(path: Seq<char>, ext: Seq<char>) -> bool {
    &&& !ext.contains('.')
    &&& exists|i: int|
        1 <= i && i + 1 + ext.len() <= path.len() && #[trigger] path[i] == '.' && path.subrange(
            i + 1,
            i + 1 + ext.len(),
        ) == ext
}

/// Whether `path` holds, as a possible extension, one that names a
/// Parquet file.
pub open spec fn holds_parquet_extension(path: Seq<char>) -> bool {
    exists|ext: Seq<char>| #[trigger] stands_as_extension(path, ext) && is_parquet_word(ext)
}

/// Whether `path` holds, as a possible extension, one that names a JSON
/// file.
pub open spec fn holds_json_extension(path: Seq<char>) -> bool {
    exists|ext: Seq<char>| #[trigger] stands_as_extension(path, ext) && is_json_word(ext)
}

/// Whether `path` holds, as a possible extension, one that names an Arrow
/// IPC file.
pub open spec fn holds_arrow_extension(path: Seq<char>) -> bool {
    exists|ext: Seq<char>| #[trigger] stands_as_extension(path, ext) && is_arrow_word(ext)
}

/// `Path::extension` of std, on the path that `path` spells: the part of
/// the file name behind its last point, if the file name has a point that
/// is not its first character. What counts as the file name depends on the
/// platform, so the result is not named. On every platform an extension
/// that is returned holds no point and stands in the path directly behind
/// a point before which the file name has a character; only that is
/// claimed.
#[verifier::external_body]
pub(crate) fn extension_of(path: &str) -> (r: Option<String>)
    ensures
        match r {
            Some(e) => stands_as_extension(path@, e@),
            None => true,
        },
{
    match Path::new(path).extension() {
        Some(e) => Some(e.to_string_lossy().into_owned()),
        None => None,
    }
}

/// A path without a point holds no extension.
pub proof fn lemma_no_point_no_extension(path: Seq<char>, ext: Seq<char>)
    requires
        stands_as_extension(path, ext),
    ensures
        path.contains('.'),
{
    let i = choose|i: int|
        1 <= i && i + 1 + ext.len() <= path.len() && #[trigger] path[i] == '.' && path.subrange(
            i + 1,
            i + 1 + ext.len(),
        ) == ext;
    assert(path[i] == '.');
}

fn lowered_chars(ext: &str) -> (l: Vec<char>)
    ensures
        l@ == lowered(ext@),
{
    let t = chars_of(ext);
    let mut l: Vec<char> = Vec::new();
    let mut i: usize = 0;
    while i < t.len()
        invariant
            i <= t.len(),
            t@ == ext@,
            l@ == lowered(ext@.take(i as int)),
        decreases t.len() - i,
    {
        l.push(lower_char(t[i]));
        i = i + 1;
        assert(l@ =~= lowered(ext@.take(i as int)));
    }
    assert(ext@.take(t.len() as int) =~= ext@);
    l
}

/// Whether the extension `ext` names a Parquet file, in any mix of upper
/// and lower case.
pub fn is_parquet_extension(ext: &str) -> (b: bool)
    ensures
        b == is_parquet_word(ext@),
{
    text_is(&lowered_chars(ext), "parquet")
}

/// Whether the extension `ext` names a JSON file.
pub fn is_json_extension(ext: &str) -> (b: bool)
    ensures
        b == is_json_word(ext@),
{
    text_is(&lowered_chars(ext), "json")
}

/// Whether the extension `ext` names an Arrow IPC file: `feather`,
/// `arrow` or `ipc`.
pub fn is_arrow_extension(ext: &str) -> (b: bool)
    ensures
        b == is_arrow_word(ext@),
{
    let l = lowered_chars(ext);
    text_is(&l, "feather") || text_is(&l, "arrow") || text_is(&l, "ipc")
}

/// Whether the file at `file_path` is a Parquet file by its name: whether
/// the extension that the platform finds in the path names one.
///
/// Which part of a path is the file name is for the platform to say. A
/// path that is reported holds such an extension where one can stand; a
/// path without a point is never reported.
pub fn is_parquet_file(file_path: &str) -> (b: bool)
    ensures
        b ==> holds_parquet_extension(file_path@),
        !file_path@.contains('.') ==> !b,
{
    match extension_of(file_path) {
        Some(ext) => {
            let b = is_parquet_extension(ext.as_str());
            proof {
                lemma_no_point_no_extension(file_path@, ext@);
            }
            b
        },
        None => false,
    }
}

/// Whether the file at `file_path` is a JSON file by its name: whether
/// the extension that the platform finds in the path names one.
///
/// Which part of a path is the file name is for the platform to say. A
/// path that is reported holds such an extension where one can stand; a
/// path without a point is never reported.
pub fn is_json_file(file_path: &str) -> (b: bool)
    ensures
        b ==> holds_json_extension(file_path@),
        !file_path@.contains('.') ==> !b,
{
    match extension_of(file_path) {
        Some(ext) => {
            let b = is_json_extension(ext.as_str());
            proof {
                lemma_no_point_no_extension(file_path@, ext@);
            }
            b
        },
        None => false,
    }
}

/// Whether the file at `file_path` is an Arrow IPC file by its name: whether
/// the extension that the platform finds in the path names one.
///
/// Which part of a path is the file name is for the platform to say. A
/// path that is reported holds such an extension where one can stand; a
/// path without a point is never reported.
pub fn is_arrow_file(file_path: &str) -> (b: bool)
    ensures
        b ==> holds_arrow_extension(file_path@),
        !file_path@.contains('.') ==> !b,
{
    match extension_of(file_path) {
        Some(ext) => {
            let b = is_arrow_extension(ext.as_str());
            proof {
                lemma_no_point_no_extension(file_path@, ext@);
            }
            b
        },
        None => false,
    }
}

/// How many rows of a file of `file_size_mb` megabytes are sampled.
pub open spec fn sample_size_for(file_size_mb: nat) -> nat {
    if file_size_mb <= 10 {
        1000
    } else if file_size_mb <= 100 {
        5000
    } else if file_size_mb <= 1000 {
        7500
    } else {
        10000
    }
}

/// How many rows to read of a file that is `file_size` bytes long: more
/// for a larger file, by whole megabytes.
pub fn calculate_sample_size(file_size: u64) -> (rows: usize)
    ensures
        rows == sample_size_for((file_size / 1048576) as nat),
{
    let file_size_mb: u64 = file_size / 1048576;
    if file_size_mb <= 10 {
        1000
    } else if file_size_mb <= 100 {
        5000
    } else if file_size_mb <= 1000 {
        7500
    } else {
        10000
    }
}

} // verus!
