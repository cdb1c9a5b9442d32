//! What a run is asked to do, once the command line has been read.

use vstd::prelude::*;
use vstd::string::StringExecFns;

verus! {

/// The options of a run as given: what was not given is `None` or `false`.
#[derive(Debug)]
pub struct Options {
    /// The bundled theme.
    pub theme: Option<String>,
    /// The name of the page files.
    pub name: Option<String>,
    /// A directory of templates to use in place of a bundled theme.
    pub template: Option<String>,
    /// Whether pages are also printed.
    pub print: bool,
    /// Whether only the root directory is listed.
    pub no_recursive: bool,
    /// The depth cutoff.
    pub depth: Option<usize>,
    /// The prefix of every displayed path.
    pub root: Option<String>,
    /// Whether sizes are human-readable.
    pub human: bool,
    /// The set of icons.
    pub iconset: Option<String>,
}

/// The options of a run with every default filled in.
#[derive(Debug)]
pub struct Settings {
    pub theme: String,
    pub name: String,
    pub template: Option<String>,
    pub print: bool,
    pub max_depth: usize,
    pub base: String,
    pub human: bool,
    pub iconset: String,
}

/// What a run does.
#[derive(Debug)]
pub enum Command {
    /// Print the usage and stop.
    Usage,
    /// Print the version and stop.
    Version,
    /// Generate the pages of the tree at this path.
    Generate(String),
}

/// The text of an option, or `default` where it was not given.
pub open spec fn text_or(given: Option<String>, default: Seq<char>) -> Seq<char> {
    match given {
        Some(text) => text@,
        None => default,
    }
}

/// The depth cutoff of a run: one where recursion is off, else the depth
/// given, else no cutoff.
pub open spec fn depth_cutoff(no_recursive: bool, depth: Option<usize>) -> usize {
    if no_recursive {
        1
    } else {
        match depth {
            Some(d) => d,
            None => usize::MAX,
        }
    }
}

/// An option's text, or a default.
fn take_or(given: Option<String>, default: &str) -> (r: String)
    ensures
        r@ == text_or(given, default@),
{
    match given {
        Some(text) => text,
        None => String::from_str(default),
    }
}

/// Fills in the defaults: theme `default`, page files named `index.html`,
/// displayed paths that begin with `/`, icons of the set `papirus`, and no
/// depth cutoff. Without recursion the cutoff is one, whatever depth is given.
pub fn settings(options: Options) -> (s: Settings)
    ensures
        s.theme@ == text_or(options.theme, "default"@),
        s.name@ == text_or(options.name, "index.html"@),
        s.template == options.template,
        s.print == options.print,
        s.max_depth == depth_cutoff(options.no_recursive, options.depth),
        s.base@ == text_or(options.root, "/"@),
        s.human == options.human,
        s.iconset@ == text_or(options.iconset, "papirus"@),
{
    let max_depth: usize = if options.no_recursive {
        1
    } else {
        match options.depth {
            Some(d) => d,
            None => usize::MAX,
        }
    };
    Settings {
        theme: take_or(options.theme, "default"),
        name: take_or(options.name, "index.html"),
        template: options.template,
        print: options.print,
        max_depth,
        base: take_or(options.root, "/"),
        human: options.human,
        iconset: take_or(options.iconset, "papirus"),
    }
}

/// What a run does: the usage where help is asked for, else the version
/// where that is asked for, else the usage where no path is given, else the
/// pages of the first path.
pub fn command(help: bool, version: bool, paths: &Vec<String>) -> (c: Command)
    ensures
        match c {
            Command::Usage => help || (!version && paths@.len() == 0),
            Command::Version => !help && version,
            Command::Generate(path) => !help && !version && paths@.len() > 0 && path@
                == paths@[0]@,
        },
{
    if help {
        Command::Usage
    } else if version {
        Command::Version
    } else if paths.len() == 0 {
        Command::Usage
    } else {
        Command::Generate(paths[0].clone())
    }
}

} // verus!
