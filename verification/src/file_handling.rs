//! The listing helpers once more, under the names used by callers that
//! work with paths: the same selection and filtering as `find_files`, on
//! the name text of each entry.

use crate::find_files::{get_names, get_names_with_pattern_match, selected_names, FsEntry, Kind};
use crate::pattern::{matching_names, names_view, regex_pattern_ok, Pattern};
use vstd::prelude::*;

verus! {

/// The names of the entries of `entries` that `kind` selects, in order.
pub fn retrive_name_vec(entries: &Vec<FsEntry>, kind: Kind) -> (r: Vec<String>)
    ensures
        names_view(r@) == selected_names(entries@, kind),
{
    get_names(entries, kind)
}

/// The names of the directories in the listing, in order.
pub fn retrive_dir_name_vec(entries: &Vec<FsEntry>) -> (r: Vec<String>)
    ensures
        names_view(r@) == selected_names(entries@, Kind::Dir),
{
    retrive_name_vec(entries, Kind::Dir)
}

/// The names of the regular files in the listing, in order.
pub fn retrive_file_name_vec(entries: &Vec<FsEntry>) -> (r: Vec<String>)
    ensures
        names_view(r@) == selected_names(entries@, Kind::File),
{
    retrive_name_vec(entries, Kind::File)
}

/// The names that the regular expression `pattern` matches, in order. The
/// pattern must be one the expression engine accepts; see
/// `try_retrive_name_vec_with_pattern_match` for the checked form.
pub fn retrive_name_vec_with_pattern_match(names: Vec<String>, pattern: &str) -> (r: Vec<String>)
    requires
        regex_pattern_ok(pattern@),
    ensures
        names_view(r@) == matching_names(pattern@, names_view(names@)),
{
    get_names_with_pattern_match(names, pattern)
}

/// Compile `pattern` and, if the expression engine accepts it, return the
/// names it matches; `None` exactly when the pattern is rejected.
pub fn try_retrive_name_vec_with_pattern_match(names: Vec<String>, pattern: &str) -> (r: Option<
    Vec<String>,
>)
    ensures
        r is Some <==> regex_pattern_ok(pattern@),
        r matches Some(v) ==> names_view(v@) == matching_names(pattern@, names_view(names@)),
{
    match Pattern::compile(pattern) {
        Some(_) => Some(retrive_name_vec_with_pattern_match(names, pattern)),
        None => None,
    }
}

} // verus!
