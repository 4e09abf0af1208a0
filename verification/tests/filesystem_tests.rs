use filebrowser::entry::Entry;
use filebrowser::filesystem::{
    arrange_listing, discovered_entry, parent_entry, preview_text, sort_entries, PREVIEW_LIMIT,
};

fn names(entries: &[Entry]) -> Vec<&str> {
    entries.iter().map(|e| e.name.as_str()).collect()
}

fn entry(name: &str, is_dir: bool) -> Entry {
    discovered_entry(name.to_string(), is_dir, 10, 0)
}

#[test]
fn listing_puts_parent_then_directories_then_files() {
    let discovered = vec![
        entry("b.txt", false),
        entry("Docs", true),
        entry("a.txt", false),
        entry("assets", true),
        entry("C.txt", false),
    ];
    let listed = arrange_listing(true, discovered);
    assert_eq!(names(&listed), vec!["..", "assets", "Docs", "a.txt", "b.txt", "C.txt"]);
    assert!(listed[0].is_dir);
    assert_eq!(listed[0].size, 0);
}

#[test]
fn root_listing_has_no_parent_entry() {
    let listed = arrange_listing(false, vec![entry("z", false), entry("y", false)]);
    assert_eq!(names(&listed), vec!["y", "z"]);
    assert!(arrange_listing(false, Vec::new()).is_empty());
    assert_eq!(names(&arrange_listing(true, Vec::new())), vec![".."]);
}

#[test]
fn sorting_keeps_every_entry() {
    let sorted = sort_entries(vec![
        entry("b", false),
        entry("B", false),
        entry("a", true),
        entry("b", true),
        entry("A", false),
    ]);
    assert_eq!(names(&sorted), vec!["a", "b", "A", "B", "b"]);
    assert!(sorted[0].is_dir && sorted[1].is_dir);
}

#[test]
fn discovered_directories_have_no_size() {
    let dir = discovered_entry("d".to_string(), true, 4096, 7);
    assert_eq!(dir.size, 0);
    assert_eq!(dir.modified, 7);
    let file = discovered_entry("f".to_string(), false, 4096, 9);
    assert_eq!(file.size, 4096);
    let up = parent_entry();
    assert_eq!(up.name, "..");
    assert!(up.is_dir);
}

#[test]
fn preview_rejects_binary_samples() {
    assert_eq!(preview_text(b"hello\0world"), None);
    assert_eq!(preview_text(b"\0"), None);
}

#[test]
fn preview_decodes_text_lossily() {
    assert_eq!(preview_text(b"hello"), Some("hello".to_string()));
    assert_eq!(preview_text(b""), Some(String::new()));
    assert_eq!(preview_text(b"a\xffb"), Some("a\u{fffd}b".to_string()));
    assert_eq!(preview_text("héllo".as_bytes()), Some("héllo".to_string()));
    assert_eq!(PREVIEW_LIMIT, 2_000);
}

#[test]
fn sorting_keeps_tied_entries_in_their_order() {
    let sorted = sort_entries(vec![
        discovered_entry("same".to_string(), false, 1, 0),
        discovered_entry("other".to_string(), false, 9, 0),
        discovered_entry("same".to_string(), false, 2, 0),
        discovered_entry("same".to_string(), false, 3, 0),
    ]);
    let sizes: Vec<u64> = sorted.iter().map(|e| e.size).collect();
    assert_eq!(sizes, vec![9, 1, 2, 3]);
}

#[test]
fn sorting_a_long_listing() {
    let discovered: Vec<Entry> = (0..500)
        .rev()
        .map(|i| discovered_entry(format!("f{i:04}"), i % 3 == 0, i, 0))
        .collect();
    let sorted = sort_entries(discovered);
    assert_eq!(sorted.len(), 500);
    assert_eq!(sorted[0].name, "f0000");
    assert!(sorted[..167].iter().all(|e| e.is_dir));
    assert!(sorted[167..].iter().all(|e| !e.is_dir));
    for pair in sorted.windows(2) {
        assert!(pair[0].is_dir > pair[1].is_dir || pair[0].name < pair[1].name);
    }
}
