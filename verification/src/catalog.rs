//! Embedded asset directories, as the lookups of this library see them.
//!
//! An asset directory is a value of `include_dir::Dir`. Nothing here is
//! proved of it: the lookup below is believed to return what the crate's
//! `Dir::get_file` finds.

use vstd::prelude::*;
use include_dir::Dir;

verus! {

#[verifier::external_type_specification]
#[verifier::external_body]
pub struct ExDir<'a>(Dir<'a>);

/// The files of an asset directory: each path at which `Dir::get_file` finds
/// a file, with that file's bytes.
pub uninterp spec fn dir_files(dir: Dir) -> Map<Seq<char>, Seq<u8>>;

/// Looks `path` up with `include_dir::Dir::get_file` and hands out the
/// bytes of the file found (`File::contents`).
///
/// Believed, not proved: the result is the entry of `dir_files` at `path`,
/// and `None` where `dir_files` has none.
#[verifier::external_body]
pub(crate) fn dir_file<'a>(dir: &Dir<'a>, path: &str) -> (r: Option<&'a [u8]>)
    ensures
        match r {
            Some(bytes) => dir_files(*dir).contains_key(path@) && dir_files(*dir)[path@] == bytes@,
            None => !dir_files(*dir).contains_key(path@),
        },
{
    match dir.get_file(path) {
        Some(file) => Some(file.contents()),
        None => None,
    }
}

} // verus!
