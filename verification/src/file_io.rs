//! Loading a file's contents into a buffer, and the name shown for a file.
//! Reading and writing the file happen around the library.
use vstd::prelude::*;
use std::string::FromUtf8Error;
use vstd::utf8::{decode_utf8, valid_utf8};
use crate::buffer::{collapse_crlf, disk_ending, LineEnding, TextBuffer};

verus! {

#[verifier::external_type_specification]
#[verifier::external_body]
pub struct ExFromUtf8Error(FromUtf8Error);

/// `String::from_utf8`: the text the bytes encode when they are valid UTF-8,
/// an error otherwise.
#[verifier::external_body]
fn string_from_utf8(bytes: Vec<u8>) -> (r: Result<String, FromUtf8Error>)
    ensures
        r is Ok == valid_utf8(bytes@),
        r matches Ok(s) ==> s@ == decode_utf8(bytes@),
{
    String::from_utf8(bytes)
}

/// Why a file's contents could not be loaded.
#[derive(Debug, Clone, Copy, PartialEq, Eq, Structural)]
pub enum LoadError {
    /// The contents are not valid UTF-8.
    InvalidUtf8,
}

/// The buffer for a file's contents: a missing file (`None`) gives an empty
/// buffer, valid UTF-8 gives a clean buffer of its text, anything else an
/// error.
pub fn load_buffer(contents: Option<Vec<u8>>) -> (r: Result<TextBuffer, LoadError>)
    ensures
        match contents {
            None => r matches Ok(b) && b.text() == Seq::<char>::empty() && b.ending() == LineEnding::Lf
                && !b.is_modified(),
            Some(bytes) => if valid_utf8(bytes@) {
                r matches Ok(b) && b.text() == collapse_crlf(decode_utf8(bytes@)) && b.ending()
                    == disk_ending(decode_utf8(bytes@)) && !b.is_modified()
            } else {
                r == Err::<TextBuffer, LoadError>(LoadError::InvalidUtf8)
            },
        },
{
    match contents {
        None => Ok(TextBuffer::new()),
        Some(bytes) => match string_from_utf8(bytes) {
            Ok(text) => Ok(TextBuffer::from_disk_text(text.as_str())),
            Err(_) => Err(LoadError::InvalidUtf8),
        },
    }
}

broadcast use vstd::string::group_string_axioms;

/// Where the segment of `p` that ends at `i` starts: just after the last `/`
/// before position `i`, or at 0.
pub open spec fn segment_start(p: Seq<char>, i: int) -> int
    decreases i,
{
    if i <= 0 {
        0
    } else if p[i - 1] == '/' {
        i
    } else {
        segment_start(p, i - 1)
    }
}

/// The last `/`-separated segment of `p`.
pub open spec fn last_segment(p: Seq<char>) -> Seq<char> {
    p.skip(segment_start(p, p.len() as int))
}

/// A path that every platform splits the same way: no `\` and no `:`, no
/// leading `//`, and a last `/`-separated segment that names a file (not
/// empty, not `.` and not `..`).
pub open spec fn plain_path(p: Seq<char>) -> bool {
    &&& forall|i: int| 0 <= i < p.len() ==> #[trigger] p[i] != '\\' && p[i] != ':'
    &&& !(p.len() >= 2 && p[0] == '/' && p[1] == '/')
    &&& last_segment(p).len() > 0
    &&& last_segment(p) != seq!['.']
    &&& last_segment(p) != seq!['.', '.']
}

/// `Path::file_name`, taken lossily to a `String` (`OsStr::to_string_lossy`,
/// which keeps text that is already UTF-8 as it is): the last component of
/// `path`, if it has one.  For a plain path that is its last segment.  How
/// other paths split into components depends on the platform (`\` and `:`
/// are separators or prefixes on Windows only), so nothing is stated of
/// them.
#[verifier::external_body]
fn path_file_name(path: &str) -> (name: Option<String>)
    ensures
        plain_path(path@) ==> name is Some,
        plain_path(path@) ==> name.unwrap()@ == last_segment(path@),
{
    match std::path::Path::new(path).file_name() {
        Some(name) => Some(name.to_string_lossy().into_owned()),
        None => None,
    }
}

/// The name shown for a file: `file_name` when it is there and not empty,
/// else the whole path.
pub fn pick_display_name(file_name: Option<String>, path: &str) -> (name: String)
    ensures
        name@ == match file_name {
            Some(n) => if n@.len() > 0 {
                n@
            } else {
                path@
            },
            None => path@,
        },
{
    match file_name {
        Some(n) => {
            if n.as_str().unicode_len() > 0 {
                n
            } else {
                path.to_string()
            }
        },
        None => path.to_string(),
    }
}

/// The name shown for the file at `path`: its last component, or the whole
/// path where there is none.  For a plain path that is its last segment;
/// for any path the result is not empty unless the path is.
pub fn display_name(path: &str) -> (name: String)
    ensures
        plain_path(path@) ==> name@ == last_segment(path@),
        name@ == path@ || name@.len() > 0,
{
    pick_display_name(path_file_name(path), path)
}

} // verus!
