//! The templates of a bundled theme.
//!
//! A theme is a directory of the bundled templates that holds two files,
//! `layout.html` and `index.html`, both of them UTF-8 text.

use vstd::prelude::*;
use vstd::string::StringExecFns;
use vstd::utf8::{decode_utf8, valid_utf8};
use include_dir::Dir;
use crate::catalog::{dir_file, dir_files};

verus! {

/// Reads bytes as text with `std::str::from_utf8`.
///
/// Believed, not proved: the result is `Some` exactly for valid UTF-8, and
/// then it is the text that the bytes encode.
#[verifier::external_body]
fn text_of<'a>(bytes: &'a [u8]) -> (r: Option<&'a str>)
    ensures
        r is Some <==> valid_utf8(bytes@),
        r matches Some(s) ==> s@ == decode_utf8(bytes@),
{
    std::str::from_utf8(bytes).ok()
}

/// One of the two templates of a theme.
#[derive(Debug, Clone, Copy, PartialEq, Eq, Structural)]
pub enum TemplateName {
    /// `layout.html`
    Layout,
    /// `index.html`
    Index,
}

/// Why a theme cannot be used.
#[derive(Debug, Clone, Copy, PartialEq, Eq, Structural)]
pub enum ThemeError {
    /// The theme lacks the template; a theme that lacks `layout.html` is
    /// taken to be unknown.
    Missing(TemplateName),
    /// The template is not UTF-8 text.
    NotText(TemplateName),
}

/// The two templates of a theme, as text.
#[derive(Debug)]
pub struct TemplateSet {
    pub layout: String,
    pub index: String,
}

/// The file name of the layout template.
pub open spec fn layout_file() -> Seq<char> {
    seq!['l', 'a', 'y', 'o', 'u', 't', '.', 'h', 't', 'm', 'l']
}

/// The file name of the index template.
pub open spec fn index_file() -> Seq<char> {
    seq!['i', 'n', 'd', 'e', 'x', '.', 'h', 't', 'm', 'l']
}

/// The path of a theme's template.
pub open spec fn template_path(theme: Seq<char>, file: Seq<char>) -> Seq<char> {
    theme + seq!['/'] + file
}

/// The text of the template at `path`, or why it has none.
pub open spec fn template_text(
    files: Map<Seq<char>, Seq<u8>>,
    path: Seq<char>,
    which: TemplateName,
) -> Result<Seq<char>, ThemeError> {
    if !files.contains_key(path) {
        Err(ThemeError::Missing(which))
    } else if !valid_utf8(files[path]) {
        Err(ThemeError::NotText(which))
    } else {
        Ok(decode_utf8(files[path]))
    }
}

/// The layout and the index template of `theme`, or the first thing that is
/// wrong with them, the layout being looked at first.
pub open spec fn theme_templates(files: Map<Seq<char>, Seq<u8>>, theme: Seq<char>) -> Result<
    (Seq<char>, Seq<char>),
    ThemeError,
> {
    match template_text(files, template_path(theme, layout_file()), TemplateName::Layout) {
        Err(e) => Err(e),
        Ok(layout) => match template_text(
            files,
            template_path(theme, index_file()),
            TemplateName::Index,
        ) {
            Err(e) => Err(e),
            Ok(index) => Ok((layout, index)),
        },
    }
}

/// The text of one template of a theme.
fn load_template(templates: &Dir, theme: &str, file: &str, which: TemplateName) -> (r: Result<
    String,
    ThemeError,
>)
    ensures
        match r {
            Ok(text) => template_text(
                dir_files(*templates),
                template_path(theme@, file@),
                which,
            ) == Ok::<Seq<char>, ThemeError>(text@),
            Err(e) => template_text(dir_files(*templates), template_path(theme@, file@), which)
                == Err::<Seq<char>, ThemeError>(e),
        },
{
    proof {
        reveal_strlit("/");
        assert("/"@ =~= seq!['/']);
    }
    let mut path = String::from_str(theme);
    path.append("/");
    path.append(file);
    match dir_file(templates, path.as_str()) {
        None => Err(ThemeError::Missing(which)),
        Some(bytes) => match text_of(bytes) {
            None => Err(ThemeError::NotText(which)),
            Some(text) => Ok(text.to_owned()),
        },
    }
}

/// The templates of the bundled theme `theme`.
///
/// Succeeds exactly where `templates` holds `<theme>/layout.html` and
/// `<theme>/index.html` and both are UTF-8 text. Otherwise the error names the
/// first template that is missing or is not text, the layout first.
pub fn bundled_templates(templates: &Dir, theme: &str) -> (r: Result<TemplateSet, ThemeError>)
    ensures
        match r {
            Ok(set) => theme_templates(dir_files(*templates), theme@) == Ok::<
                (Seq<char>, Seq<char>),
                ThemeError,
            >((set.layout@, set.index@)),
            Err(e) => theme_templates(dir_files(*templates), theme@) == Err::<
                (Seq<char>, Seq<char>),
                ThemeError,
            >(e),
        },
{
    proof {
        reveal_strlit("layout.html");
        reveal_strlit("index.html");
        assert("layout.html"@ =~= layout_file());
        assert("index.html"@ =~= index_file());
    }
    match load_template(templates, theme, "layout.html", TemplateName::Layout) {
        Err(e) => Err(e),
        Ok(layout) => match load_template(templates, theme, "index.html", TemplateName::Index) {
            Err(e) => Err(e),
            Ok(index) => Ok(TemplateSet { layout, index }),
        },
    }
}

} // verus!
