use include_dir::{Dir, DirEntry, File};
use index_generator::icon::{
    can_encode, encode_icon, find_icon, get_icon_by_mime, icon_file, icon_targets,
};

#[test]
fn type_icon_wins_over_default_when_exact_is_absent() {
    let entries = [
        DirEntry::File(File::new("papirus/text.svg", b"text icon")),
        DirEntry::File(File::new("papirus/default.svg", b"default icon")),
    ];
    let catalog = Dir::new("", &entries);
    let icon = get_icon_by_mime("text/plain", false, "papirus", &catalog);
    assert_eq!(icon, Some("dGV4dCBpY29u".to_string()));
    assert_ne!(icon, Some("ZGVmYXVsdCBpY29u".to_string()));
}

#[test]
fn exact_icon_wins_over_type_icon() {
    let entries = [
        DirEntry::File(File::new("papirus/text.svg", b"text icon")),
        DirEntry::File(File::new("papirus/text/plain.svg", b"plain")),
        DirEntry::File(File::new("papirus/default.svg", b"default icon")),
    ];
    let catalog = Dir::new("", &entries);
    assert_eq!(
        get_icon_by_mime("text/plain", false, "papirus", &catalog),
        Some("cGxhaW4=".to_string())
    );
}

#[test]
fn directory_named_like_a_pdf_gets_the_directory_icon() {
    let entries = [
        DirEntry::File(File::new("papirus/application/pdf.svg", b"pdf")),
        DirEntry::File(File::new("papirus/inode/directory.svg", b"folder")),
        DirEntry::File(File::new("papirus/default.svg", b"default icon")),
    ];
    let catalog = Dir::new("", &entries);
    assert_eq!(
        get_icon_by_mime("application/pdf", true, "papirus", &catalog),
        Some("Zm9sZGVy".to_string())
    );
    assert_eq!(
        get_icon_by_mime("", true, "papirus", &catalog),
        Some("Zm9sZGVy".to_string())
    );
    assert_eq!(
        get_icon_by_mime("application/pdf", false, "papirus", &catalog),
        Some("cGRm".to_string())
    );
}

#[test]
fn empty_mime_tries_default_only() {
    let entries = [
        DirEntry::File(File::new("papirus/.svg", b"nameless")),
        DirEntry::File(File::new("papirus/default.svg", b"default icon")),
    ];
    let catalog = Dir::new("", &entries);
    assert_eq!(
        get_icon_by_mime("", false, "papirus", &catalog),
        Some("ZGVmYXVsdCBpY29u".to_string())
    );
}

#[test]
fn no_target_in_the_catalog_gives_the_empty_text() {
    let entries = [DirEntry::File(File::new("other/default.svg", b"x"))];
    let catalog = Dir::new("", &entries);
    assert_eq!(get_icon_by_mime("text/plain", false, "papirus", &catalog), Some(String::new()));
    assert_eq!(find_icon("text/plain", false, "papirus", &catalog), None);
}

#[test]
fn mime_without_subtype_tries_type_then_default() {
    let entries = [
        DirEntry::File(File::new("papirus/text.svg", b"text icon")),
        DirEntry::File(File::new("papirus/default.svg", b"default icon")),
    ];
    let catalog = Dir::new("", &entries);
    assert_eq!(find_icon("text", false, "papirus", &catalog), Some(&b"text icon"[..]));
    assert_eq!(find_icon("image", false, "papirus", &catalog), Some(&b"default icon"[..]));
}

#[test]
fn targets_in_order() {
    assert_eq!(icon_targets("text/plain"), vec!["text/plain", "text", "default"]);
    assert_eq!(icon_targets("text"), vec!["text", "default"]);
    assert_eq!(icon_targets(""), vec!["default"]);
    assert_eq!(icon_targets("a/b/c"), vec!["a/b", "a", "default"]);
    assert_eq!(icon_targets("/x"), vec!["/x", "", "default"]);
}

#[test]
fn icon_file_joins_set_target_and_suffix() {
    assert_eq!(icon_file("papirus", "text/plain"), "papirus/text/plain.svg");
    assert_eq!(icon_file("papirus", "default"), "papirus/default.svg");
}

#[test]
fn base64_text_of_bytes() {
    assert!(can_encode(b"hello"));
    assert_eq!(encode_icon(b"hello"), "aGVsbG8=");
    assert_eq!(encode_icon(b""), "");
    assert_eq!(encode_icon(&[0xfb, 0xff]), "+/8=");
}

#[test]
fn icons_are_found_in_nested_directories() {
    let inner = [DirEntry::File(File::new("papirus/text.svg", b"text icon"))];
    let outer = [DirEntry::Dir(Dir::new("papirus", &inner))];
    let catalog = Dir::new("", &outer);
    assert_eq!(find_icon("text/plain", false, "papirus", &catalog), Some(&b"text icon"[..]));
}
