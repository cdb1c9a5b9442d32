//! Which icon stands for a media type, and its text for a page.
//!
//! An icon is looked up in an asset directory under
//! `<iconset>/<target>.svg`. The targets that are tried for a media type
//! `type/subtype` are `type/subtype`, then `type`, then `default`; the first
//! one that the directory holds is taken. The empty media type tries
//! `default` alone. A directory always counts as `inode/directory`, whatever
//! media type its name suggests.

use vstd::prelude::*;
use vstd::string::StringExecFns;
use base64::Engine;
use include_dir::Dir;
use crate::catalog::{dir_file, dir_files};
use crate::text::{head_before, split_first, tail_after};

verus! {

/// The Base64 text (standard alphabet, padded) of `bytes`, as
/// `base64::engine::general_purpose::STANDARD` encodes them.
pub uninterp spec fn base64_standard(bytes: Seq<u8>) -> Seq<char>;

/// Whether the Base64 text of `len` bytes has a length that fits in `usize`.
pub open spec fn encodable(len: nat) -> bool {
    len / 3 * 4 + 4 <= usize::MAX
}

/// Encodes with `base64::Engine::encode` on the engine
/// `base64::prelude::BASE64_STANDARD`.
///
/// Believed, not proved: the result is the Base64 text of `bytes`. The
/// crate's `encode` panics where the length of that text overflows `usize`,
/// which `requires` leaves out.
#[verifier::external_body]
fn base64_encode(bytes: &[u8]) -> (s: String)
    requires
        encodable(bytes@.len()),
    ensures
        s@ == base64_standard(bytes@),
{
    base64::prelude::BASE64_STANDARD.encode(bytes)
}

/// The media type that every directory counts as.
pub open spec fn directory_mime() -> Seq<char> {
    seq!['i', 'n', 'o', 'd', 'e', '/', 'd', 'i', 'r', 'e', 'c', 't', 'o', 'r', 'y']
}

/// The target of last resort.
pub open spec fn default_target() -> Seq<char> {
    seq!['d', 'e', 'f', 'a', 'u', 'l', 't']
}

/// The ending of an icon's file name.
pub open spec fn icon_suffix() -> Seq<char> {
    seq!['.', 's', 'v', 'g']
}

/// The media type by which an entry's icon is chosen.
pub open spec fn effective_mime(mime: Seq<char>, is_dir: bool) -> Seq<char> {
    if is_dir {
        directory_mime()
    } else {
        mime
    }
}

/// The type of a media type: what stands in front of its first `/`.
pub open spec fn mime_type(mime: Seq<char>) -> Seq<char> {
    head_before(mime, '/')
}

/// The subtype of a media type: what stands between its first `/` and the
/// next one, or the end. A media type without `/` has none.
pub open spec fn mime_subtype(mime: Seq<char>) -> Option<Seq<char>> {
    match tail_after(mime, '/') {
        Some(rest) => Some(head_before(rest, '/')),
        None => None,
    }
}

/// The targets that are tried for `mime`, in order.
pub open spec fn targets(mime: Seq<char>) -> Seq<Seq<char>> {
    if mime.len() == 0 {
        seq![default_target()]
    } else {
        match mime_subtype(mime) {
            Some(sub) => seq![
                mime_type(mime) + seq!['/'] + sub,
                mime_type(mime),
                default_target(),
            ],
            None => seq![mime_type(mime), default_target()],
        }
    }
}

/// The path under which the icon of `target` lies.
pub open spec fn icon_path(iconset: Seq<char>, target: Seq<char>) -> Seq<char> {
    iconset + seq!['/'] + target + icon_suffix()
}

/// The bytes of the first of `targets` that `files` holds an icon for.
pub open spec fn first_hit(
    files: Map<Seq<char>, Seq<u8>>,
    iconset: Seq<char>,
    targets: Seq<Seq<char>>,
) -> Option<Seq<u8>>
    decreases targets.len(),
{
    if targets.len() == 0 {
        None
    } else if files.contains_key(icon_path(iconset, targets[0])) {
        Some(files[icon_path(iconset, targets[0])])
    } else {
        first_hit(files, iconset, targets.skip(1))
    }
}

/// The bytes of the icon that stands for an entry, if the directory holds
/// one for any of its targets.
pub open spec fn selected_icon(
    files: Map<Seq<char>, Seq<u8>>,
    mime: Seq<char>,
    is_dir: bool,
    iconset: Seq<char>,
) -> Option<Seq<u8>> {
    first_hit(files, iconset, targets(effective_mime(mime, is_dir)))
}

/// The text of the icon that stands for an entry: the Base64 text of the
/// selected icon, the empty text where none is selected, and `None` where the
/// selected icon is too large to encode.
pub open spec fn icon_text(
    files: Map<Seq<char>, Seq<u8>>,
    mime: Seq<char>,
    is_dir: bool,
    iconset: Seq<char>,
) -> Option<Seq<char>> {
    match selected_icon(files, mime, is_dir, iconset) {
        None => Some(Seq::empty()),
        Some(bytes) => if encodable(bytes.len()) {
            Some(base64_standard(bytes))
        } else {
            None
        },
    }
}

/// A directory's icon does not depend on the media type that its name
/// suggests: it is the icon of `inode/directory`.
pub proof fn lemma_directory_icon(
    files: Map<Seq<char>, Seq<u8>>,
    mime: Seq<char>,
    other: Seq<char>,
    iconset: Seq<char>,
)
    ensures
        selected_icon(files, mime, true, iconset) == selected_icon(files, other, true, iconset),
        selected_icon(files, mime, true, iconset) == selected_icon(
            files,
            directory_mime(),
            false,
            iconset,
        ),
        icon_text(files, mime, true, iconset) == icon_text(files, other, true, iconset),
        icon_text(files, mime, true, iconset) == icon_text(files, directory_mime(), false, iconset),
{
}

/// The order of fallback, for a media type with a subtype: an icon for the
/// full media type wins; failing that, an icon for the type; failing that,
/// the default icon; failing that, none.
pub proof fn lemma_fallback_order(
    files: Map<Seq<char>, Seq<u8>>,
    mime: Seq<char>,
    iconset: Seq<char>,
)
    requires
        mime.len() > 0,
        mime_subtype(mime) is Some,
    ensures
        ({
            let exact = icon_path(iconset, mime_type(mime) + seq!['/'] + mime_subtype(mime)->0);
            let kind = icon_path(iconset, mime_type(mime));
            let last = icon_path(iconset, default_target());
            selected_icon(files, mime, false, iconset) == if files.contains_key(exact) {
                Some(files[exact])
            } else if files.contains_key(kind) {
                Some(files[kind])
            } else if files.contains_key(last) {
                Some(files[last])
            } else {
                None
            }
        }),
{
    reveal_with_fuel(first_hit, 4);
    let t = targets(mime);
    assert(t.skip(1)[0] == t[1]);
    assert(t.skip(1).skip(1)[0] == t[2]);
    assert(t.skip(1).skip(1).skip(1).len() == 0);
}

/// The order of fallback, for a media type without a subtype: the type,
/// then the default icon.
pub proof fn lemma_fallback_without_subtype(
    files: Map<Seq<char>, Seq<u8>>,
    mime: Seq<char>,
    iconset: Seq<char>,
)
    requires
        mime.len() > 0,
        mime_subtype(mime) is None,
    ensures
        ({
            let kind = icon_path(iconset, mime_type(mime));
            let last = icon_path(iconset, default_target());
            selected_icon(files, mime, false, iconset) == if files.contains_key(kind) {
                Some(files[kind])
            } else if files.contains_key(last) {
                Some(files[last])
            } else {
                None
            }
        }),
{
    reveal_with_fuel(first_hit, 3);
    let t = targets(mime);
    assert(t.skip(1)[0] == t[1]);
    assert(t.skip(1).skip(1).len() == 0);
}

/// The empty media type has the default icon, or none.
pub proof fn lemma_fallback_empty(files: Map<Seq<char>, Seq<u8>>, iconset: Seq<char>)
    ensures
        ({
            let last = icon_path(iconset, default_target());
            selected_icon(files, Seq::empty(), false, iconset) == if files.contains_key(last) {
                Some(files[last])
            } else {
                None
            }
        }),
{
    reveal_with_fuel(first_hit, 2);
    let t = targets(Seq::<char>::empty());
    assert(t.skip(1).len() == 0);
}

/// The targets that are tried for `mime`, in order.
pub fn icon_targets(mime: &str) -> (r: Vec<String>)
    ensures
        r@.len() == targets(mime@).len(),
        forall|i: int| 0 <= i < r@.len() ==> (#[trigger] r@[i])@ == targets(mime@)[i],
{
    proof {
        reveal_strlit("default");
        reveal_strlit("/");
        assert("default"@ =~= default_target());
        assert("/"@ =~= seq!['/']);
    }
    let mut out: Vec<String> = Vec::new();
    if mime.unicode_len() > 0 {
        let (kind, rest) = split_first(mime, '/');
        match rest {
            Some(rest) => {
                let (sub, _) = split_first(rest.as_str(), '/');
                let mut exact = kind.clone();
                exact.append("/");
                exact.append(sub.as_str());
                out.push(exact);
            },
            None => {},
        }
        out.push(kind);
    }
    out.push(String::from_str("default"));
    out
}

/// The path under which the icon of `target` lies.
pub fn icon_file(iconset: &str, target: &str) -> (r: String)
    ensures
        r@ == icon_path(iconset@, target@),
{
    proof {
        reveal_strlit("/");
        reveal_strlit(".svg");
        assert("/"@ =~= seq!['/']);
        assert(".svg"@ =~= icon_suffix());
    }
    let mut path = String::from_str(iconset);
    path.append("/");
    path.append(target);
    path.append(".svg");
    path
}

/// The bytes of the icon that stands for an entry of media type `mime`.
pub fn find_icon<'a>(mime: &str, is_dir: bool, iconset: &str, catalog: &Dir<'a>) -> (r: Option<
    &'a [u8],
>)
    ensures
        match r {
            Some(bytes) => selected_icon(dir_files(*catalog), mime@, is_dir, iconset@) == Some(
                bytes@,
            ),
            None => selected_icon(dir_files(*catalog), mime@, is_dir, iconset@) is None,
        },
{
    proof {
        reveal_strlit("inode/directory");
        assert("inode/directory"@ =~= directory_mime());
    }
    let list = if is_dir {
        icon_targets("inode/directory")
    } else {
        icon_targets(mime)
    };
    let ghost wanted = targets(effective_mime(mime@, is_dir));
    let ghost files = dir_files(*catalog);
    let mut i: usize = 0;
    proof {
        assert(wanted.skip(0) =~= wanted);
    }
    while i < list.len()
        invariant
            i <= list.len(),
            list@.len() == wanted.len(),
            forall|j: int| 0 <= j < list@.len() ==> (#[trigger] list@[j])@ == wanted[j],
            files == dir_files(*catalog),
            wanted == targets(effective_mime(mime@, is_dir)),
            first_hit(files, iconset@, wanted) == first_hit(files, iconset@, wanted.skip(i as int)),
        decreases list.len() - i,
    {
        let path = icon_file(iconset, list[i].as_str());
        let ghost rest = wanted.skip(i as int);
        proof {
            assert(list@[i as int]@ == wanted[i as int]);
            assert(rest.len() > 0);
            assert(rest[0] == wanted[i as int]);
            assert(rest.skip(1) =~= wanted.skip(i + 1));
            assert(path@ == icon_path(iconset@, rest[0]));
        }
        match dir_file(catalog, path.as_str()) {
            Some(bytes) => {
                return Some(bytes);
            },
            None => {},
        }
        i = i + 1;
    }
    None
}

/// The Base64 text of an icon's bytes.
pub fn encode_icon(bytes: &[u8]) -> (s: String)
    requires
        encodable(bytes@.len()),
    ensures
        s@ == base64_standard(bytes@),
{
    base64_encode(bytes)
}

/// Whether `bytes` are few enough for `encode_icon`.
pub fn can_encode(bytes: &[u8]) -> (r: bool)
    ensures
        r == encodable(bytes@.len()),
{
    bytes.len() / 3 <= (usize::MAX - 4) / 4
}

/// The text of the icon that stands for an entry of media type `mime`.
///
/// The result is the Base64 text of the first icon found for the entry's
/// targets, and the empty text where the catalog holds none of them. It is
/// `None` only where the icon found is too large to encode.
pub fn get_icon_by_mime(mime: &str, is_dir: bool, iconset: &str, catalog: &Dir) -> (r: Option<
    String,
>)
    ensures
        match r {
            Some(s) => icon_text(dir_files(*catalog), mime@, is_dir, iconset@) == Some(s@),
            None => icon_text(dir_files(*catalog), mime@, is_dir, iconset@) is None,
        },
{
    match find_icon(mime, is_dir, iconset, catalog) {
        Some(bytes) => {
            if can_encode(bytes) {
                Some(encode_icon(bytes))
            } else {
                None
            }
        },
        None => Some(String::new()),
    }
}

} // verus!
