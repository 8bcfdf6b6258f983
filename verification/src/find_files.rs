//! Selecting directory or file names out of a directory listing.
//!
//! The listing itself is handed in as plain values — one entry per name,
//! with flags saying whether the entry is a directory or a regular file —
//! so the selection logic is verified while the actual directory walk stays
//! with the caller.

use crate::pattern::{matching_names, names_view, regex_pattern_ok, Pattern};
use vstd::prelude::*;

verus! {

/// Which entries a listing query keeps.
#[derive(Clone, Copy)]
pub enum Kind {
    Dir,
    File,
}

/// One entry of a directory listing: its name and what it is. An entry can
/// be neither a directory nor a regular file (a symbolic link, say), and is
/// then never selected.
pub struct FsEntry {
    pub name: String,
    pub is_dir: bool,
    pub is_file: bool,
}

/// Whether `kind` selects the entry.
pub open spec fn spec_selected(e: FsEntry, kind: Kind) -> bool {
    match kind {
        Kind::Dir => e.is_dir,
        Kind::File => e.is_file,
    }
}

/// The names of the selected entries, in listing order.
pub open spec fn selected_names(entries: Seq<FsEntry>, kind: Kind) -> Seq<Seq<char>> {
    entries.filter(|e: FsEntry| spec_selected(e, kind)).map_values(|e: FsEntry| e.name@)
}

/// Selecting from one more entry keeps its name exactly when the kind
/// matches.
proof fn lemma_selected_names_push(entries: Seq<FsEntry>, kind: Kind, e: FsEntry)
    ensures
        selected_names(entries.push(e), kind) == (if spec_selected(e, kind) {
            selected_names(entries, kind).push(e.name@)
        } else {
            selected_names(entries, kind)
        }),
{
    reveal(Seq::filter);
    assert(entries.push(e).drop_last() =~= entries);
    assert(entries.push(e).last() == e);
    if spec_selected(e, kind) {
        assert(entries.filter(|x: FsEntry| spec_selected(x, kind)).push(e).map_values(
            |x: FsEntry| x.name@,
        ) =~= entries.filter(|x: FsEntry| spec_selected(x, kind)).map_values(
            |x: FsEntry| x.name@,
        ).push(e.name@));
    }
}

/// The names of the entries of `entries` that `kind` selects, in order.
pub fn get_names(entries: &Vec<FsEntry>, kind: Kind) -> (r: Vec<String>)
    ensures
        names_view(r@) == selected_names(entries@, kind),
{
    let mut names: Vec<String> = Vec::new();
    let mut i: usize = 0;
    while i < entries.len()
        invariant
            i <= entries@.len(),
            names_view(names@) == selected_names(entries@.subrange(0, i as int), kind),
        decreases entries@.len() - i,
    {
        let ghost prefix = entries@.subrange(0, i as int);
        proof {
            lemma_selected_names_push(prefix, kind, entries@[i as int]);
            assert(entries@.subrange(0, i + 1) =~= prefix.push(entries@[i as int]));
        }
        let entry = &entries[i];
        let flag = match kind {
            Kind::Dir => entry.is_dir,
            Kind::File => entry.is_file,
        };
        if flag {
            names.push(entry.name.clone());
            proof {
                assert(names_view(names@) =~= selected_names(
                    entries@.subrange(0, i + 1),
                    kind,
                ));
            }
        }
        i = i + 1;
    }
    proof {
        assert(entries@.subrange(0, entries@.len() as int) =~= entries@);
    }
    names
}

/// The names of the directories in the listing, in order.
pub fn get_folder_names(entries: &Vec<FsEntry>) -> (r: Vec<String>)
    ensures
        names_view(r@) == selected_names(entries@, Kind::Dir),
{
    get_names(entries, Kind::Dir)
}

/// The names of the regular files in the listing, in order.
pub fn get_file_names(entries: &Vec<FsEntry>) -> (r: Vec<String>)
    ensures
        names_view(r@) == selected_names(entries@, Kind::File),
{
    get_names(entries, Kind::File)
}

/// The names that the regular expression `pattern` matches, in order. The
/// pattern must be one the expression engine accepts; see
/// `try_get_names_with_pattern_match` for the checked form.
pub fn get_names_with_pattern_match(names: Vec<String>, pattern: &str) -> (r: Vec<String>)
    requires
        regex_pattern_ok(pattern@),
    ensures
        names_view(r@) == matching_names(pattern@, names_view(names@)),
{
    match Pattern::compile(pattern) {
        Some(p) => crate::pattern::filter_matching(&p, &names),
        None => vstd::pervasive::unreached(),
    }
}

/// Compile `pattern` and, if the expression engine accepts it, return the
/// names it matches; `None` exactly when the pattern is rejected.
pub fn try_get_names_with_pattern_match(names: Vec<String>, pattern: &str) -> (r: Option<
    Vec<String>,
>)
    ensures
        r is Some <==> regex_pattern_ok(pattern@),
        r matches Some(v) ==> names_view(v@) == matching_names(pattern@, names_view(names@)),
{
    match Pattern::compile(pattern) {
        Some(_) => Some(get_names_with_pattern_match(names, pattern)),
        None => None,
    }
}

} // verus!
