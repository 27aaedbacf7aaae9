use mononoke::hash::NodeHash;
use mononoke::manifest::{
    diff_sorted_vecs, name_before, same_name, EntryKind, EntryStatus, ManifestEntry,
};

fn hash(n: u8) -> NodeHash {
    NodeHash { bytes: [n; 20] }
}

fn entry(name: &str, n: u8, kind: EntryKind) -> ManifestEntry {
    ManifestEntry { name: name.as_bytes().to_vec(), hash: hash(n), kind }
}

#[test]
fn names_are_ordered_byte_by_byte() {
    let lt = |a: &str, b: &str| name_before(&a.as_bytes().to_vec(), &b.as_bytes().to_vec());
    assert!(lt("a", "b"));
    assert!(!lt("b", "a"));
    assert!(lt("a", "ab"));
    assert!(!lt("ab", "a"));
    assert!(!lt("a", "a"));
    assert!(lt("", "a"));
    assert!(!lt("", ""));
    assert!(lt("Z", "a"));
    assert!(lt("abc", "abd"));
    assert!(same_name(&b"dir".to_vec(), &b"dir".to_vec()));
    assert!(!same_name(&b"dir".to_vec(), &b"dirs".to_vec()));
    assert!(!same_name(&b"dir".to_vec(), &b"dis".to_vec()));
}

#[test]
fn diff_finds_additions_modifications_and_deletions() {
    let to = vec![
        entry("a", 1, EntryKind::File),
        entry("b", 2, EntryKind::Tree),
        entry("d", 4, EntryKind::File),
        entry("e", 5, EntryKind::Tree),
    ];
    let from = vec![
        entry("a", 1, EntryKind::File),
        entry("b", 9, EntryKind::Tree),
        entry("c", 3, EntryKind::File),
        entry("e", 5, EntryKind::Tree),
    ];
    assert_eq!(
        diff_sorted_vecs(&to, &from),
        vec![
            EntryStatus::Modified {
                to_entry: entry("b", 2, EntryKind::Tree),
                from_entry: entry("b", 9, EntryKind::Tree),
            },
            EntryStatus::Deleted(entry("c", 3, EntryKind::File)),
            EntryStatus::Added(entry("d", 4, EntryKind::File)),
        ]
    );
}

#[test]
fn diff_of_a_changed_kind_is_an_addition_and_a_deletion() {
    let to = vec![entry("x", 1, EntryKind::Tree)];
    let from = vec![entry("x", 1, EntryKind::File)];
    assert_eq!(
        diff_sorted_vecs(&to, &from),
        vec![
            EntryStatus::Added(entry("x", 1, EntryKind::Tree)),
            EntryStatus::Deleted(entry("x", 1, EntryKind::File)),
        ]
    );
    let to = vec![entry("x", 1, EntryKind::Executable)];
    let from = vec![entry("x", 1, EntryKind::Symlink)];
    assert_eq!(diff_sorted_vecs(&to, &from).len(), 2);
}

#[test]
fn diff_against_nothing_adds_everything() {
    let to = vec![entry("a", 1, EntryKind::File), entry("b", 2, EntryKind::Tree)];
    assert_eq!(
        diff_sorted_vecs(&to, &Vec::new()),
        vec![
            EntryStatus::Added(entry("a", 1, EntryKind::File)),
            EntryStatus::Added(entry("b", 2, EntryKind::Tree)),
        ]
    );
    assert_eq!(
        diff_sorted_vecs(&Vec::new(), &to),
        vec![
            EntryStatus::Deleted(entry("a", 1, EntryKind::File)),
            EntryStatus::Deleted(entry("b", 2, EntryKind::Tree)),
        ]
    );
    assert_eq!(diff_sorted_vecs(&Vec::new(), &Vec::new()), vec![]);
}

#[test]
fn diff_of_a_manifest_with_itself_is_empty() {
    let entries = vec![
        entry("a", 1, EntryKind::File),
        entry("b", 2, EntryKind::Tree),
        entry("c", 3, EntryKind::Symlink),
    ];
    assert_eq!(diff_sorted_vecs(&entries, &entries), vec![]);
}

#[test]
fn entry_status_accessors() {
    let added = EntryStatus::Added(entry("t", 1, EntryKind::Tree));
    let deleted = EntryStatus::Deleted(entry("f", 2, EntryKind::File));
    let modified = EntryStatus::Modified {
        to_entry: entry("m", 3, EntryKind::Tree),
        from_entry: entry("m", 4, EntryKind::Tree),
    };
    assert!(added.is_tree() && !added.is_deleted());
    assert!(!deleted.is_tree() && deleted.is_deleted());
    assert!(modified.is_tree() && !modified.is_deleted());
    assert_eq!(modified.entry(), &entry("m", 3, EntryKind::Tree));
    assert_eq!(modified.duplicate(), modified);
    assert_eq!(ManifestEntry::root(hash(7)), entry("", 7, EntryKind::Tree));
}
