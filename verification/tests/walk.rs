use index_generator::entry::Entry;
use index_generator::order::insert_member;
use index_generator::page::reserved_names;
use index_generator::path::{depth, file_name, is_pruned, parent};
use index_generator::text::is_before;
use index_generator::walk::{is_listed, walk};

fn entry(path: &str, is_dir: bool) -> Entry {
    Entry::new(path.to_string(), is_dir, 1, 0, 0)
}

fn tree() -> Vec<Entry> {
    vec![
        entry(".", true),
        entry("./a.txt", false),
        entry("./images", true),
        entry("./images/logo.png", false),
        entry("./images/deep", true),
        entry("./images/deep/x.png", false),
        entry("./index.html", false),
        entry("./sub", true),
        entry("./sub/b.txt", false),
        entry("./sub/empty", true),
        entry("./sub/favicon.ico", false),
        entry("./sub/inner", true),
        entry("./sub/inner/c.txt", false),
    ]
}

fn paths_of(entries: &Vec<Entry>) -> Vec<String> {
    let mut out = Vec::new();
    for e in entries {
        out.push(e.path.clone());
    }
    out
}

#[test]
fn path_parts() {
    assert_eq!(parent("./sub/b.txt"), Some("./sub".to_string()));
    assert_eq!(parent("./a"), Some(".".to_string()));
    assert_eq!(parent("."), None);
    assert_eq!(file_name("./sub/b.txt"), "b.txt");
    assert_eq!(file_name("."), ".");
    assert_eq!(depth("."), 0);
    assert_eq!(depth("./a"), 1);
    assert_eq!(depth("./sub/inner/c.txt"), 3);
}

#[test]
fn reserved_names_are_output_images_and_favicon() {
    assert_eq!(reserved_names("index.html"), vec!["index.html", "images", "favicon.ico"]);
    assert_eq!(reserved_names("list.htm"), vec!["list.htm", "images", "favicon.ico"]);
}

#[test]
fn exclusion_is_recursive() {
    let names = reserved_names("index.html");
    assert!(is_pruned("./images", &names));
    assert!(is_pruned("./images/logo.png", &names));
    assert!(is_pruned("./images/deep/x.png", &names));
    assert!(!is_pruned("./sub/b.txt", &names));
    assert!(!is_pruned("images", &names));
    let groups = walk(&tree(), usize::MAX, &names);
    for g in &groups {
        assert!(!g.key.starts_with("./images"));
        for m in &g.members {
            assert!(!m.path.starts_with("./images"));
            assert_ne!(m.path, "./index.html");
            assert_ne!(m.path, "./sub/favicon.ico");
        }
    }
}

#[test]
fn depth_one_lists_only_children_of_the_root() {
    let names = reserved_names("index.html");
    let groups = walk(&tree(), 1, &names);
    assert_eq!(groups.len(), 1);
    assert_eq!(groups[0].key, ".");
    assert_eq!(paths_of(&groups[0].members), vec!["./a.txt", "./sub"]);
}

#[test]
fn depth_zero_lists_nothing() {
    let names = reserved_names("index.html");
    assert!(walk(&tree(), 0, &names).is_empty());
    assert!(!is_listed("./a.txt", 0, &names));
}

#[test]
fn groups_are_keyed_by_parent_in_order_of_first_appearance() {
    let names = reserved_names("index.html");
    let groups = walk(&tree(), usize::MAX, &names);
    let mut keys = Vec::new();
    for g in &groups {
        keys.push(g.key.clone());
        for m in &g.members {
            assert_eq!(parent(&m.path), Some(g.key.clone()));
        }
    }
    assert_eq!(keys, vec![".", "./sub", "./sub/inner"]);
    assert_eq!(paths_of(&groups[0].members), vec!["./a.txt", "./sub"]);
    assert_eq!(paths_of(&groups[1].members), vec!["./sub/b.txt", "./sub/empty", "./sub/inner"]);
    assert_eq!(paths_of(&groups[2].members), vec!["./sub/inner/c.txt"]);
}

#[test]
fn a_directory_without_listed_entries_has_no_group() {
    let names = reserved_names("index.html");
    let groups = walk(&tree(), usize::MAX, &names);
    for g in &groups {
        assert_ne!(g.key, "./sub/empty");
        assert!(!g.members.is_empty());
    }
}

#[test]
fn the_configured_output_name_is_reserved() {
    let listing = vec![entry("./list.htm", false), entry("./index.html", false)];
    let groups = walk(&listing, usize::MAX, &reserved_names("list.htm"));
    assert_eq!(groups.len(), 1);
    assert_eq!(paths_of(&groups[0].members), vec!["./index.html"]);
}

#[test]
fn interleaved_entries_join_their_group() {
    let listing = vec![
        entry("./x/1", false),
        entry("./y/1", false),
        entry("./x/2", false),
    ];
    let groups = walk(&listing, usize::MAX, &Vec::new());
    assert_eq!(groups.len(), 2);
    assert_eq!(groups[0].key, "./x");
    assert_eq!(paths_of(&groups[0].members), vec!["./x/1", "./x/2"]);
    assert_eq!(groups[1].key, "./y");
}

#[test]
fn members_stand_in_the_order_of_their_names() {
    let listing = vec![
        entry("./b", false),
        entry("./d/z", false),
        entry("./a", false),
        entry("./d/y", false),
        entry("./c", true),
        entry("./B", false),
        entry("./ab", false),
    ];
    let groups = walk(&listing, usize::MAX, &Vec::new());
    assert_eq!(groups.len(), 2);
    assert_eq!(groups[0].key, ".");
    assert_eq!(paths_of(&groups[0].members), vec!["./B", "./a", "./ab", "./b", "./c"]);
    assert_eq!(groups[1].key, "./d");
    assert_eq!(paths_of(&groups[1].members), vec!["./d/y", "./d/z"]);
}

#[test]
fn entries_of_one_name_keep_their_order() {
    let listing = vec![
        Entry::new("./x".to_string(), false, 1, 0, 0),
        Entry::new("./a".to_string(), false, 2, 0, 0),
        Entry::new("./x".to_string(), false, 3, 0, 0),
    ];
    let groups = walk(&listing, usize::MAX, &Vec::new());
    assert_eq!(groups.len(), 1);
    let mut lens = Vec::new();
    for m in &groups[0].members {
        lens.push(m.len);
    }
    assert_eq!(lens, vec![2, 1, 3]);
}

#[test]
fn dictionary_order_of_names() {
    assert!(is_before("a", "b"));
    assert!(!is_before("b", "a"));
    assert!(!is_before("a", "a"));
    assert!(is_before("a", "ab"));
    assert!(!is_before("ab", "a"));
    assert!(is_before("", "a"));
    assert!(!is_before("", ""));
    assert!(is_before("Z", "a"));
    assert!(is_before("z", "\u{e9}"));
    assert!(is_before("a10", "a9"));
}

#[test]
fn dictionary_order_agrees_with_the_order_of_strings() {
    let names = ["", "a", "A", "ab", "b", "z", "\u{e9}", "\u{1f600}", "~", "a/b", "a.b", "10", "9"];
    for x in names {
        for y in names {
            assert_eq!(is_before(x, y), x < y);
        }
    }
}

#[test]
fn insert_member_puts_the_entry_at_its_place() {
    let mut members = vec![entry("./a", false), entry("./c", false)];
    insert_member(&mut members, entry("./b", false));
    insert_member(&mut members, entry("./d", false));
    insert_member(&mut members, entry("./0", false));
    assert_eq!(paths_of(&members), vec!["./0", "./a", "./b", "./c", "./d"]);
}
