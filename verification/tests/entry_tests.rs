use std::cmp::Ordering;

use filebrowser::entry::{comes_after, compare, Entry};

fn entry(name: &str, is_dir: bool) -> Entry {
    Entry { name: name.to_string(), is_dir, size: 0, modified: 0 }
}

#[test]
fn directories_come_before_files() {
    assert_eq!(compare(&entry("zeta", true), &entry("alpha", false)), Ordering::Less);
    assert_eq!(compare(&entry("alpha", false), &entry("zeta", true)), Ordering::Greater);
}

#[test]
fn names_compare_without_regard_to_case() {
    assert_eq!(compare(&entry("apple", false), &entry("Banana", false)), Ordering::Less);
    assert_eq!(compare(&entry("B", false), &entry("a", false)), Ordering::Greater);
    assert_eq!(compare(&entry("Ärger", true), &entry("ärmel", true)), Ordering::Less);
}

#[test]
fn names_differing_only_in_case_keep_a_fixed_order() {
    assert_eq!(compare(&entry("README", false), &entry("readme", false)), Ordering::Less);
    assert_eq!(compare(&entry("readme", false), &entry("README", false)), Ordering::Greater);
    assert_eq!(compare(&entry("same", false), &entry("same", false)), Ordering::Equal);
    assert!(comes_after(&entry("readme", false), &entry("README", false)));
    assert!(!comes_after(&entry("same", false), &entry("same", false)));
}

#[test]
fn prefixes_come_first() {
    assert_eq!(compare(&entry("note", false), &entry("notes", false)), Ordering::Less);
    assert_eq!(compare(&entry("", false), &entry("a", false)), Ordering::Less);
}
