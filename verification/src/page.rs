//! The listing pages of a traversal: one for each directory that holds a
//! listed entry.
//!
//! A page is what a template is rendered with, and where the result goes: the
//! directory, the path of the file to write in it, the directory's path as
//! the page displays it, and the directory's items.

use vstd::prelude::*;
use vstd::string::StringExecFns;
use include_dir::Dir;
use crate::catalog::dir_files;
use crate::entry::{entry_views, Entry, EntryView};
use crate::icon::icon_text;
use crate::item::{
    extract, item_of, item_views, mime_of, timestamp_in_range, ExtractError, FileItem,
    FileItemView,
};
use crate::path::name_set;
use crate::text::{rest_after_prefix, strip_first};
use crate::walk::{
    group_views, lemma_members_belong, listed, walk, walk_spec, Group, GroupView,
};

verus! {

/// Who made the pages: constant over a run.
#[derive(Debug)]
pub struct Generator {
    pub name: String,
    pub version: String,
    pub url: String,
}

/// The mathematical value of a [`Generator`].
pub struct GeneratorView {
    pub name: Seq<char>,
    pub version: Seq<char>,
    pub url: Seq<char>,
}

impl View for Generator {
    type V = GeneratorView;

    open spec fn view(&self) -> GeneratorView {
        GeneratorView { name: self.name@, version: self.version@, url: self.url@ }
    }
}

impl Generator {
    /// A second generator with the same value.
    pub fn duplicate(&self) -> (g: Generator)
        ensures
            g@ == self@,
    {
        Generator {
            name: self.name.clone(),
            version: self.version.clone(),
            url: self.url.clone(),
        }
    }
}

/// What a listing page is rendered from.
#[derive(Debug)]
pub struct Index {
    /// The directory's path as displayed: the base prefix and the path
    /// below the traversal root.
    pub root: String,
    /// The items of the directory, in the order of their names.
    pub files: Vec<FileItem>,
    /// Who made the page.
    pub generator: Generator,
}

/// The value that a template sees: the index under the name `ig`.
#[derive(Debug)]
pub struct Product {
    pub ig: Index,
}

/// One listing page to render and write.
#[derive(Debug)]
pub struct Page {
    /// The directory that the page lists.
    pub directory: String,
    /// The path of the file that holds the rendered page.
    pub file: String,
    /// What the page is rendered from.
    pub product: Product,
}

/// The mathematical value of a [`Page`].
pub struct PageView {
    pub directory: Seq<char>,
    pub file: Seq<char>,
    pub root: Seq<char>,
    pub files: Seq<FileItemView>,
    pub generator: GeneratorView,
}

impl View for Page {
    type V = PageView;

    open spec fn view(&self) -> PageView {
        PageView {
            directory: self.directory@,
            file: self.file@,
            root: self.product.ig.root@,
            files: item_views(self.product.ig.files@),
            generator: self.product.ig.generator@,
        }
    }
}

/// The name of the directory that is reserved for images.
pub open spec fn images_name() -> Seq<char> {
    seq!['i', 'm', 'a', 'g', 'e', 's']
}

/// The name of the file that is reserved for the site's icon.
pub open spec fn favicon_name() -> Seq<char> {
    seq!['f', 'a', 'v', 'i', 'c', 'o', 'n', '.', 'i', 'c', 'o']
}

/// The names that are never listed: the name of the page files themselves,
/// `images` and `favicon.ico`.
pub open spec fn reserved_set(output: Seq<char>) -> Set<Seq<char>> {
    Set::new(|x: Seq<char>| x == output || x == images_name() || x == favicon_name())
}

/// A group's directory as a page displays it: `base`, then the key without
/// one leading `.` and one leading `/`. A key that does not begin with `.`
/// followed by `/` adds nothing to `base`.
pub open spec fn display_root(base: Seq<char>, key: Seq<char>) -> Seq<char> {
    base + rest_after_prefix(rest_after_prefix(key, '.'), '/')
}

/// The path of the file `name` in directory `key`.
pub open spec fn output_path(key: Seq<char>, name: Seq<char>) -> Seq<char> {
    key + seq!['/'] + name
}

/// Whether the icon of entry `e` is too large to encode.
pub open spec fn icon_fails(e: EntryView, iconset: Seq<char>, files: Map<Seq<char>, Seq<u8>>) -> bool {
    icon_text(files, mime_of(e.path), e.is_dir, iconset) is None
}

/// Whether the time of modification of entry `e` is out of range.
pub open spec fn time_fails(e: EntryView) -> bool {
    !timestamp_in_range(e.modified_secs, e.modified_nanos)
}

/// Whether `page` is the page of `group`: every field is fixed by the
/// arguments but the text of each item's time of modification.
pub open spec fn page_of(
    page: PageView,
    group: GroupView,
    name: Seq<char>,
    base: Seq<char>,
    human: bool,
    iconset: Seq<char>,
    files: Map<Seq<char>, Seq<u8>>,
    generator: GeneratorView,
) -> bool {
    &&& page.directory == group.key
    &&& page.file == output_path(group.key, name)
    &&& page.root == display_root(base, group.key)
    &&& page.generator == generator
    &&& page.files.len() == group.members.len()
    &&& forall|i: int|
        0 <= i < page.files.len() ==> item_of(
            group.members[i],
            human,
            iconset,
            files,
            page.files[i].modified,
        ) == Some(#[trigger] page.files[i])
}

/// The names that are never listed, for page files named `output`.
pub fn reserved_names(output: &str) -> (r: Vec<String>)
    ensures
        r@.len() == 3,
        r@[0]@ == output@,
        r@[1]@ == images_name(),
        r@[2]@ == favicon_name(),
        name_set(r@) == reserved_set(output@),
{
    proof {
        reveal_strlit("images");
        reveal_strlit("favicon.ico");
        assert("images"@ =~= images_name());
        assert("favicon.ico"@ =~= favicon_name());
    }
    let mut names: Vec<String> = Vec::new();
    names.push(String::from_str(output));
    names.push(String::from_str("images"));
    names.push(String::from_str("favicon.ico"));
    proof {
        assert forall|x: Seq<char>| name_set(names@).contains(x) == reserved_set(output@).contains(
            x,
        ) by {
            if reserved_set(output@).contains(x) {
                if x == output@ {
                    assert(names@[0]@ == x);
                } else if x == images_name() {
                    assert(names@[1]@ == x);
                } else {
                    assert(names@[2]@ == x);
                }
            }
        }
        assert(name_set(names@) =~= reserved_set(output@));
    }
    names
}

/// A group's directory as a page displays it.
pub fn root_for(base: &str, key: &str) -> (r: String)
    ensures
        r@ == display_root(base@, key@),
{
    let below = strip_first(key, '.');
    let shown = strip_first(below.as_str(), '/');
    let mut root = String::from_str(base);
    root.append(shown.as_str());
    root
}

/// The path of the file `name` in directory `key`.
pub fn file_for(key: &str, name: &str) -> (r: String)
    ensures
        r@ == output_path(key@, name@),
{
    proof {
        reveal_strlit("/");
        assert("/"@ =~= seq!['/']);
    }
    let mut path = String::from_str(key);
    path.append("/");
    path.append(name);
    path
}

/// The page of one group.
///
/// Fails where one of the group's entries has no item; a group whose
/// entries all have a time in range and an icon that can be encoded has a
/// page.
pub fn build_page(
    group: &Group,
    name: &str,
    base: &str,
    human: bool,
    iconset: &str,
    catalog: &Dir,
    generator: &Generator,
) -> (r: Result<Page, ExtractError>)
    ensures
        match r {
            Ok(page) => page_of(
                page@,
                group@,
                name@,
                base@,
                human,
                iconset@,
                dir_files(*catalog),
                generator@,
            ),
            Err(ExtractError::IconTooLarge) => exists|i: int|
                0 <= i < group@.members.len() && icon_fails(
                    #[trigger] group@.members[i],
                    iconset@,
                    dir_files(*catalog),
                ),
            Err(ExtractError::TimestampOutOfRange) => exists|i: int|
                0 <= i < group@.members.len() && time_fails(#[trigger] group@.members[i]),
        },
        (forall|i: int|
            0 <= i < group@.members.len() ==> !icon_fails(
                #[trigger] group@.members[i],
                iconset@,
                dir_files(*catalog),
            ) && !time_fails(group@.members[i])) ==> r is Ok,
{
    let mut files: Vec<FileItem> = Vec::new();
    let mut i: usize = 0;
    let ghost members = group@.members;
    let ghost assets = dir_files(*catalog);
    while i < group.members.len()
        invariant
            i <= group.members.len(),
            members == group@.members,
            members.len() == group.members@.len(),
            assets == dir_files(*catalog),
            files@.len() == i,
            forall|j: int|
                0 <= j < i ==> item_of(members[j], human, iconset@, assets, files@[j]@.modified)
                    == Some(#[trigger] files@[j]@),
        decreases group.members.len() - i,
    {
        assert(members[i as int] == group.members@[i as int]@);
        match extract(&group.members[i], human, iconset, catalog) {
            Ok(item) => {
                files.push(item);
            },
            Err(e) => {
                proof {
                    match e {
                        ExtractError::IconTooLarge => {
                            assert(icon_fails(members[i as int], iconset@, assets));
                        },
                        ExtractError::TimestampOutOfRange => {
                            assert(time_fails(members[i as int]));
                        },
                    }
                }
                return Err(e);
            },
        }
        i = i + 1;
    }
    let page = Page {
        directory: group.key.clone(),
        file: file_for(group.key.as_str(), name),
        product: Product {
            ig: Index {
                root: root_for(base, group.key.as_str()),
                files,
                generator: generator.duplicate(),
            },
        },
    };
    proof {
        assert forall|j: int| 0 <= j < page@.files.len() implies item_of(
            members[j],
            human,
            iconset@,
            assets,
            page@.files[j].modified,
        ) == Some(#[trigger] page@.files[j]) by {
            assert(page@.files[j] == page.product.ig.files@[j]@);
        }
    }
    Ok(page)
}

/// The listing pages of a traversal.
///
/// `listing` is what the traversal reported, in its order. There is one
/// page for each directory that holds a listed entry, in the order in which
/// the directories first hold one, and each page has the items of its
/// directory in the order of their names. The names `name`, `images` and
/// `favicon.ico` are reserved: what bears one is not listed, nor is anything
/// below it.
///
/// Fails where a listed entry has no item. Where every listed entry has a
/// time in range and an icon that can be encoded, the pages are made.
pub fn generate(
    listing: &Vec<Entry>,
    name: &str,
    max_depth: usize,
    base: &str,
    human: bool,
    iconset: &str,
    catalog: &Dir,
    generator: &Generator,
) -> (r: Result<Vec<Page>, ExtractError>)
    ensures
        match r {
            Ok(pages) => {
                let groups = walk_spec(
                    entry_views(listing@),
                    max_depth as nat,
                    reserved_set(name@),
                );
                &&& pages@.len() == groups.len()
                &&& forall|g: int|
                    0 <= g < pages@.len() ==> page_of(
                        (#[trigger] pages@[g])@,
                        groups[g],
                        name@,
                        base@,
                        human,
                        iconset@,
                        dir_files(*catalog),
                        generator@,
                    )
            },
            Err(ExtractError::IconTooLarge) => exists|i: int|
                0 <= i < listing@.len() && listed(
                    (#[trigger] listing@[i])@.path,
                    max_depth as nat,
                    reserved_set(name@),
                ) && icon_fails(listing@[i]@, iconset@, dir_files(*catalog)),
            Err(ExtractError::TimestampOutOfRange) => exists|i: int|
                0 <= i < listing@.len() && listed(
                    (#[trigger] listing@[i])@.path,
                    max_depth as nat,
                    reserved_set(name@),
                ) && time_fails(listing@[i]@),
        },
        (forall|i: int|
            0 <= i < listing@.len() && listed(
                (#[trigger] listing@[i])@.path,
                max_depth as nat,
                reserved_set(name@),
            ) ==> !icon_fails(listing@[i]@, iconset@, dir_files(*catalog)) && !time_fails(
                listing@[i]@,
            )) ==> r is Ok,
{
    let names = reserved_names(name);
    let groups = walk(listing, max_depth, &names);
    let ghost all = entry_views(listing@);
    let ghost reserved = reserved_set(name@);
    let ghost wanted = walk_spec(all, max_depth as nat, reserved);
    let ghost assets = dir_files(*catalog);
    let mut pages: Vec<Page> = Vec::new();
    let mut g: usize = 0;
    while g < groups.len()
        invariant
            g <= groups.len(),
            all == entry_views(listing@),
            reserved == reserved_set(name@),
            assets == dir_files(*catalog),
            wanted == walk_spec(all, max_depth as nat, reserved),
            group_views(groups@) == wanted,
            pages@.len() == g,
            forall|h: int|
                0 <= h < g ==> page_of(
                    (#[trigger] pages@[h])@,
                    wanted[h],
                    name@,
                    base@,
                    human,
                    iconset@,
                    assets,
                    generator@,
                ),
        decreases groups.len() - g,
    {
        assert(group_views(groups@)[g as int] == groups@[g as int]@);
        match build_page(&groups[g], name, base, human, iconset, catalog, generator) {
            Ok(page) => {
                pages.push(page);
            },
            Err(e) => {
                proof {
                    let members = wanted[g as int].members;
                    let m = match e {
                        ExtractError::IconTooLarge => choose|m: int|
                            0 <= m < members.len() && icon_fails(
                                #[trigger] members[m],
                                iconset@,
                                assets,
                            ),
                        ExtractError::TimestampOutOfRange => choose|m: int|
                            0 <= m < members.len() && time_fails(#[trigger] members[m]),
                    };
                    lemma_members_belong(all, max_depth as nat, reserved, g as int, m);
                    let i = choose|i: int| 0 <= i < all.len() && all[i] == members[m];
                    assert(all[i] == listing@[i]@);
                }
                return Err(e);
            },
        }
        g = g + 1;
    }
    Ok(pages)
}

} // verus!
