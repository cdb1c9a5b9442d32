//! What a listing page shows of one entry.
//!
//! An item has the entry's path and name, its size as text, the time of its
//! last modification in local time, the media type that its name suggests,
//! and the text of its icon.

use vstd::prelude::*;
use include_dir::Dir;
use crate::catalog::dir_files;
use crate::entry::{Entry, EntryView};
use crate::icon::{get_icon_by_mime, icon_text};
use crate::path::{file_name, name_of};
use crate::size::{decimal, decimal_string, size_fmt, size_text};

verus! {

/// The media type that `mime_guess` suggests for a path, by the path's
/// extension: the first entry of the guess of `mime_guess::from_path`.
pub uninterp spec fn guessed_mime(path: Seq<char>) -> Option<Seq<char>>;

/// Guesses with `mime_guess::from_path` and takes the first media type of
/// the guess (`MimeGuess::first_raw`).
///
/// Believed, not proved: the result is `guessed_mime` of the path.
#[verifier::external_body]
fn guess_mime(path: &str) -> (r: Option<&'static str>)
    ensures
        match r {
            Some(m) => guessed_mime(path@) == Some(m@),
            None => guessed_mime(path@) is None,
        },
{
    mime_guess::from_path(path).first_raw()
}

/// The moments that are known to have a local time: those within
/// 8,000,000,000,000 seconds (some 253,000 years) of 1970-01-01 00:00:00 UTC.
pub open spec fn timestamp_in_range(secs: i64, nanos: u32) -> bool {
    -8_000_000_000_000 <= secs <= 8_000_000_000_000 && nanos < 1_000_000_000
}

/// The local time of a moment as `YYYY-MM-DD HH:MM:SS`, made with
/// `chrono::DateTime::from_timestamp`, `DateTime::with_timezone` for
/// `chrono::Local`, and `DateTime::format`.
///
/// The text depends on the time zone of the machine, so nothing is claimed
/// of it. Believed, not proved: a moment in range has a local time.
/// `from_timestamp` gives `None` only for a date outside the years -262143 to
/// 262142 or for nanoseconds that are no part of a second.
#[verifier::external_body]
fn local_time_text(secs: i64, nanos: u32) -> (r: Option<String>)
    ensures
        timestamp_in_range(secs, nanos) ==> r is Some,
{
    match chrono::DateTime::from_timestamp(secs, nanos) {
        Some(utc) => Some(
            utc.with_timezone(&chrono::Local).format("%Y-%m-%d %H:%M:%S").to_string(),
        ),
        None => None,
    }
}

/// One entry as a listing page shows it.
#[derive(Debug)]
pub struct FileItem {
    /// The entry's path.
    pub path: String,
    /// The last name of the path.
    pub name: String,
    /// The size, in bytes or in human-readable form.
    pub size: String,
    /// The last modification, in local time.
    pub modified: String,
    /// The media type that the name suggests; empty where it suggests none.
    pub mime: String,
    /// Whether the entry is a directory.
    pub is_dir: bool,
    /// The Base64 text of the icon; empty where there is no icon.
    pub icon: String,
}

/// The mathematical value of a [`FileItem`].
pub struct FileItemView {
    pub path: Seq<char>,
    pub name: Seq<char>,
    pub size: Seq<char>,
    pub modified: Seq<char>,
    pub mime: Seq<char>,
    pub is_dir: bool,
    pub icon: Seq<char>,
}

impl View for FileItem {
    type V = FileItemView;

    open spec fn view(&self) -> FileItemView {
        FileItemView {
            path: self.path@,
            name: self.name@,
            size: self.size@,
            modified: self.modified@,
            mime: self.mime@,
            is_dir: self.is_dir,
            icon: self.icon@,
        }
    }
}

/// The values of a sequence of items, in order.
pub open spec fn item_views(items: Seq<FileItem>) -> Seq<FileItemView> {
    Seq::new(items.len(), |i: int| items[i]@)
}

/// Why an entry has no item.
#[derive(Debug, Clone, Copy, PartialEq, Eq, Structural)]
pub enum ExtractError {
    /// The entry's icon is too large for its Base64 text to be made.
    IconTooLarge,
    /// The entry's time of modification has no local time.
    TimestampOutOfRange,
}

/// The media type of an entry: what its path suggests, or the empty text.
pub open spec fn mime_of(path: Seq<char>) -> Seq<char> {
    match guessed_mime(path) {
        Some(m) => m,
        None => Seq::empty(),
    }
}

/// The size of an entry as text.
pub open spec fn size_shown(len: u64, human: bool) -> Seq<char> {
    if human {
        size_text(len as nat)
    } else {
        decimal(len as nat)
    }
}

/// The item of entry `e` whose time of modification reads `modified`;
/// `None` where the entry's icon is too large to encode.
pub open spec fn item_of(
    e: EntryView,
    human: bool,
    iconset: Seq<char>,
    files: Map<Seq<char>, Seq<u8>>,
    modified: Seq<char>,
) -> Option<FileItemView> {
    match icon_text(files, mime_of(e.path), e.is_dir, iconset) {
        Some(icon) => Some(
            FileItemView {
                path: e.path,
                name: name_of(e.path),
                size: size_shown(e.len, human),
                modified,
                mime: mime_of(e.path),
                is_dir: e.is_dir,
                icon,
            },
        ),
        None => None,
    }
}

/// The media type that the name of `path` suggests; empty where it suggests
/// none.
pub fn mime_for(path: &str) -> (r: String)
    ensures
        r@ == mime_of(path@),
{
    match guess_mime(path) {
        Some(m) => m.to_owned(),
        None => String::new(),
    }
}

/// A size as text: human-readable, or the exact count of bytes in decimal.
pub fn size_for(len: u64, human: bool) -> (r: String)
    ensures
        r@ == size_shown(len, human),
{
    if human {
        size_fmt(len)
    } else {
        decimal_string(len)
    }
}

/// The item of `entry`, given the text of its time of modification.
///
/// Fails only where the entry's icon is too large to encode.
pub fn extract_with(
    entry: &Entry,
    human: bool,
    iconset: &str,
    catalog: &Dir,
    modified: String,
) -> (r: Result<FileItem, ExtractError>)
    ensures
        match r {
            Ok(item) => item_of(entry@, human, iconset@, dir_files(*catalog), modified@) == Some(
                item@,
            ),
            Err(e) => e == ExtractError::IconTooLarge && item_of(
                entry@,
                human,
                iconset@,
                dir_files(*catalog),
                modified@,
            ) is None,
        },
{
    let mime = mime_for(entry.path.as_str());
    match get_icon_by_mime(mime.as_str(), entry.is_dir, iconset, catalog) {
        Some(icon) => Ok(
            FileItem {
                path: entry.path.clone(),
                name: file_name(entry.path.as_str()),
                size: size_for(entry.len, human),
                modified,
                mime,
                is_dir: entry.is_dir,
                icon,
            },
        ),
        None => Err(ExtractError::IconTooLarge),
    }
}

/// The item of `entry`.
///
/// Every field but `modified` is fixed by the arguments; `modified` is the
/// entry's time of modification in the local time of this machine. An entry
/// whose time is in range and whose icon can be encoded has an item.
pub fn extract(entry: &Entry, human: bool, iconset: &str, catalog: &Dir) -> (r: Result<
    FileItem,
    ExtractError,
>)
    ensures
        match r {
            Ok(item) => item_of(entry@, human, iconset@, dir_files(*catalog), item@.modified)
                == Some(item@),
            Err(ExtractError::IconTooLarge) => icon_text(
                dir_files(*catalog),
                mime_of(entry@.path),
                entry.is_dir,
                iconset@,
            ) is None,
            Err(ExtractError::TimestampOutOfRange) => !timestamp_in_range(
                entry.modified_secs,
                entry.modified_nanos,
            ),
        },
        timestamp_in_range(entry.modified_secs, entry.modified_nanos) && icon_text(
            dir_files(*catalog),
            mime_of(entry@.path),
            entry.is_dir,
            iconset@,
        ) is Some ==> r is Ok,
{
    match local_time_text(entry.modified_secs, entry.modified_nanos) {
        Some(modified) => extract_with(entry, human, iconset, catalog, modified),
        None => Err(ExtractError::TimestampOutOfRange),
    }
}

} // verus!
