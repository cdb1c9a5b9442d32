use include_dir::{Dir, DirEntry, File};
use index_generator::config::{command, settings, Command, Options};
use index_generator::entry::Entry;
use index_generator::item::{extract, extract_with, mime_for, size_for, ExtractError};
use index_generator::page::{file_for, generate, root_for, Generator};
use index_generator::text::{find_first, find_last, split_first, strip_first};
use index_generator::theme::{bundled_templates, TemplateName, ThemeError};

fn generator() -> Generator {
    Generator { name: "lister".to_string(), version: "1.2.3".to_string(), url: "u".to_string() }
}

fn looks_like_a_timestamp(s: &str) -> bool {
    let b = s.as_bytes();
    if b.len() != 19 {
        return false;
    }
    let mut i = 0;
    while i < 19 {
        let ok = match i {
            4 | 7 => b[i] == b'-',
            10 => b[i] == b' ',
            13 | 16 => b[i] == b':',
            _ => b[i].is_ascii_digit(),
        };
        if !ok {
            return false;
        }
        i += 1;
    }
    true
}

#[test]
fn end_to_end_two_pages() {
    let icons = [
        DirEntry::File(File::new("papirus/text.svg", b"text icon")),
        DirEntry::File(File::new("papirus/inode/directory.svg", b"folder")),
    ];
    let catalog = Dir::new("", &icons);
    let listing = vec![
        Entry::new(".".to_string(), true, 4096, 1_700_000_000, 0),
        Entry::new("./a.txt".to_string(), false, 10, 1_700_000_000, 0),
        Entry::new("./sub".to_string(), true, 4096, 1_700_000_000, 0),
        Entry::new("./sub/b.txt".to_string(), false, 2048, 1_700_000_000, 0),
    ];
    let pages =
        generate(&listing, "index.html", usize::MAX, "/", true, "papirus", &catalog, &generator())
            .unwrap();
    assert_eq!(pages.len(), 2);

    assert_eq!(pages[0].directory, ".");
    assert_eq!(pages[0].file, "./index.html");
    assert_eq!(pages[0].product.ig.root, "/");
    assert_eq!(pages[0].product.ig.generator.name, "lister");
    assert_eq!(pages[0].product.ig.generator.version, "1.2.3");
    let files = &pages[0].product.ig.files;
    assert_eq!(files.len(), 2);
    assert_eq!(files[0].name, "a.txt");
    assert_eq!(files[0].path, "./a.txt");
    assert_eq!(files[0].size, "10");
    assert_eq!(files[0].mime, "text/plain");
    assert!(!files[0].is_dir);
    assert_eq!(files[0].icon, "dGV4dCBpY29u");
    assert!(looks_like_a_timestamp(&files[0].modified));
    assert_eq!(files[1].name, "sub");
    assert!(files[1].is_dir);
    assert_eq!(files[1].size, "4.0 KiB");
    assert_eq!(files[1].icon, "Zm9sZGVy");

    assert_eq!(pages[1].directory, "./sub");
    assert_eq!(pages[1].file, "./sub/index.html");
    assert_eq!(pages[1].product.ig.root, "/sub");
    let files = &pages[1].product.ig.files;
    assert_eq!(files.len(), 1);
    assert_eq!(files[0].name, "b.txt");
    assert_eq!(files[0].size, "2.0 KiB");
}

#[test]
fn without_recursion_only_the_root_page_is_made() {
    let catalog = Dir::new("", &[]);
    let listing = vec![
        Entry::new("./a.txt".to_string(), false, 10, 0, 0),
        Entry::new("./sub".to_string(), true, 0, 0, 0),
        Entry::new("./sub/b.txt".to_string(), false, 2048, 0, 0),
    ];
    let pages =
        generate(&listing, "index.html", 1, "", false, "papirus", &catalog, &generator()).unwrap();
    assert_eq!(pages.len(), 1);
    assert_eq!(pages[0].product.ig.files.len(), 2);
    assert_eq!(pages[0].product.ig.files[0].size, "10");
    assert_eq!(pages[0].product.ig.files[0].icon, "");
}

#[test]
fn a_time_out_of_range_fails_the_run() {
    let catalog = Dir::new("", &[]);
    let listing = vec![Entry::new("./a.txt".to_string(), false, 10, i64::MAX, 0)];
    let r = generate(&listing, "index.html", 1, "", false, "papirus", &catalog, &generator());
    assert!(matches!(r, Err(ExtractError::TimestampOutOfRange)));
    let e = Entry::new("./a.txt".to_string(), false, 10, i64::MIN, 0);
    assert!(matches!(
        extract(&e, false, "papirus", &catalog),
        Err(ExtractError::TimestampOutOfRange)
    ));
}

#[test]
fn an_unlisted_entry_cannot_fail_the_run() {
    let catalog = Dir::new("", &[]);
    let listing = vec![Entry::new("./images/a.txt".to_string(), false, 10, i64::MAX, 0)];
    let r = generate(&listing, "index.html", 9, "", false, "papirus", &catalog, &generator());
    assert!(r.unwrap().is_empty());
}

#[test]
fn extract_fills_every_field() {
    let icons = [DirEntry::File(File::new("papirus/default.svg", b"hello"))];
    let catalog = Dir::new("", &icons);
    let e = Entry::new("./docs/report.PDF".to_string(), false, 1536, 86_400 * 365, 5);
    let item = extract(&e, true, "papirus", &catalog).unwrap();
    assert_eq!(item.path, "./docs/report.PDF");
    assert_eq!(item.name, "report.PDF");
    assert_eq!(item.size, "1.5 KiB");
    assert_eq!(item.mime, "application/pdf");
    assert!(!item.is_dir);
    assert_eq!(item.icon, "aGVsbG8=");
    assert!(looks_like_a_timestamp(&item.modified));
    assert!(item.modified.starts_with("197"));
    let plain = extract(&e, false, "papirus", &catalog).unwrap();
    assert_eq!(plain.size, "1536");
}

#[test]
fn extract_with_keeps_the_given_time() {
    let catalog = Dir::new("", &[]);
    let e = Entry::new("./x.unknownext".to_string(), true, 0, 0, 0);
    let item = extract_with(&e, true, "papirus", &catalog, "then".to_string()).unwrap();
    assert_eq!(item.modified, "then");
    assert_eq!(item.mime, "");
    assert_eq!(item.size, "0");
    assert_eq!(item.icon, "");
    assert!(item.is_dir);
}

#[test]
fn mime_by_extension() {
    assert_eq!(mime_for("a.txt"), "text/plain");
    assert_eq!(mime_for("./dir/picture.png"), "image/png");
    assert_eq!(mime_for("./dir/noextension"), "");
    assert_eq!(mime_for("./dir/file.zzzzzz"), "");
}

#[test]
fn sizes_as_text() {
    assert_eq!(size_for(2048, true), "2.0 KiB");
    assert_eq!(size_for(2048, false), "2048");
    assert_eq!(size_for(10, true), "10");
}

#[test]
fn displayed_root() {
    assert_eq!(root_for("/", "."), "/");
    assert_eq!(root_for("/", "./sub/dir"), "/sub/dir");
    assert_eq!(root_for("/base/", "./sub"), "/base/sub");
    assert_eq!(root_for("", "./.hidden"), ".hidden");
    assert_eq!(root_for("/", "sub"), "/");
    assert_eq!(root_for("/", ".x/sub"), "/");
    assert_eq!(root_for("/", ""), "/");
}

#[test]
fn page_file_path() {
    assert_eq!(file_for(".", "index.html"), "./index.html");
    assert_eq!(file_for("./sub", "list.htm"), "./sub/list.htm");
}

#[test]
fn text_helpers() {
    assert_eq!(find_first("a/b/c", '/'), Some(1));
    assert_eq!(find_last("a/b/c", '/'), Some(3));
    assert_eq!(find_first("abc", '/'), None);
    assert_eq!(find_last("", '/'), None);
    assert_eq!(find_last("\u{e9}/x", '/'), Some(1));
    assert_eq!(split_first("a/b/c", '/'), ("a".to_string(), Some("b/c".to_string())));
    assert_eq!(split_first("abc", '/'), ("abc".to_string(), None));
    assert_eq!(strip_first("./x", '.'), "/x");
    assert_eq!(strip_first("x", '.'), "");
}

#[test]
fn theme_with_both_templates() {
    let files = [
        DirEntry::File(File::new("default/layout.html", b"<html>{% block c %}{% endblock %}")),
        DirEntry::File(File::new("default/index.html", b"{% extends \"layout.html\" %}")),
    ];
    let templates = Dir::new("", &files);
    let set = bundled_templates(&templates, "default").unwrap();
    assert_eq!(set.layout, "<html>{% block c %}{% endblock %}");
    assert_eq!(set.index, "{% extends \"layout.html\" %}");
}

#[test]
fn theme_errors() {
    let files = [
        DirEntry::File(File::new("a/layout.html", b"ok")),
        DirEntry::File(File::new("b/layout.html", &[0xff, 0xfe])),
        DirEntry::File(File::new("b/index.html", b"ok")),
        DirEntry::File(File::new("c/layout.html", b"ok")),
        DirEntry::File(File::new("c/index.html", &[0xc3])),
    ];
    let templates = Dir::new("", &files);
    assert!(matches!(
        bundled_templates(&templates, "nope"),
        Err(ThemeError::Missing(TemplateName::Layout))
    ));
    assert!(matches!(
        bundled_templates(&templates, "a"),
        Err(ThemeError::Missing(TemplateName::Index))
    ));
    assert!(matches!(
        bundled_templates(&templates, "b"),
        Err(ThemeError::NotText(TemplateName::Layout))
    ));
    assert!(matches!(
        bundled_templates(&templates, "c"),
        Err(ThemeError::NotText(TemplateName::Index))
    ));
}

#[test]
fn defaults_are_filled_in() {
    let s = settings(Options {
        theme: None,
        name: None,
        template: None,
        print: false,
        no_recursive: false,
        depth: None,
        root: None,
        human: false,
        iconset: None,
    });
    assert_eq!(s.theme, "default");
    assert_eq!(s.name, "index.html");
    assert_eq!(s.template, None);
    assert_eq!(s.max_depth, usize::MAX);
    assert_eq!(s.base, "/");
    assert_eq!(s.iconset, "papirus");
    assert!(!s.print);
    assert!(!s.human);
}

#[test]
fn given_options_are_kept_and_no_recursive_means_depth_one() {
    let s = settings(Options {
        theme: Some("default-dark".to_string()),
        name: Some("list.html".to_string()),
        template: Some("tpl/*".to_string()),
        print: true,
        no_recursive: true,
        depth: Some(5),
        root: Some("/pub/".to_string()),
        human: true,
        iconset: Some("other".to_string()),
    });
    assert_eq!(s.theme, "default-dark");
    assert_eq!(s.name, "list.html");
    assert_eq!(s.template, Some("tpl/*".to_string()));
    assert_eq!(s.max_depth, 1);
    assert_eq!(s.base, "/pub/");
    assert_eq!(s.iconset, "other");
    assert!(s.print);
    assert!(s.human);
    let t = settings(Options {
        theme: None,
        name: None,
        template: None,
        print: false,
        no_recursive: false,
        depth: Some(5),
        root: None,
        human: false,
        iconset: None,
    });
    assert_eq!(t.max_depth, 5);
}

#[test]
fn what_a_run_does() {
    let none: Vec<String> = Vec::new();
    let some = vec!["site".to_string(), "other".to_string()];
    assert!(matches!(command(true, true, &some), Command::Usage));
    assert!(matches!(command(false, true, &none), Command::Version));
    assert!(matches!(command(false, false, &none), Command::Usage));
    match command(false, false, &some) {
        Command::Generate(path) => assert_eq!(path, "site"),
        _ => panic!("expected a path"),
    }
}
