use mononoke::hash::NodeHash;
use mononoke::manifest::{EntryKind, EntryStatus, ManifestEntry};
use mononoke::pruner::{contains_hash, Pruner};

fn hash(n: u8) -> NodeHash {
    NodeHash { bytes: [n; 20] }
}

fn entry(name: &str, n: u8, kind: EntryKind) -> ManifestEntry {
    ManifestEntry { name: name.as_bytes().to_vec(), hash: hash(n), kind }
}

fn samples() -> Vec<EntryStatus> {
    vec![
        EntryStatus::Added(entry("tree", 1, EntryKind::Tree)),
        EntryStatus::Added(entry("file", 2, EntryKind::File)),
        EntryStatus::Deleted(entry("gone", 3, EntryKind::Tree)),
        EntryStatus::Deleted(entry("gonefile", 4, EntryKind::Executable)),
        EntryStatus::Modified {
            to_entry: entry("mod", 5, EntryKind::Tree),
            from_entry: entry("mod", 6, EntryKind::Tree),
        },
        EntryStatus::Modified {
            to_entry: entry("link", 7, EntryKind::Symlink),
            from_entry: entry("link", 8, EntryKind::Symlink),
        },
    ]
}

fn answers(pruner: &Pruner) -> (Vec<bool>, Vec<NodeHash>) {
    let mut visited = Vec::new();
    let pruned = samples().iter().map(|s| pruner.should_prune(s, &mut visited)).collect();
    (pruned, visited)
}

#[test]
fn stock_pruners() {
    assert_eq!(answers(&Pruner::Never).0, vec![false; 6]);
    assert_eq!(answers(&Pruner::Always).0, vec![true; 6]);
    assert_eq!(
        answers(&Pruner::Files).0,
        vec![false, true, false, true, false, true]
    );
    assert_eq!(
        answers(&Pruner::Deleted).0,
        vec![false, false, true, true, false, false]
    );
    assert_eq!(
        answers(&Pruner::either(Pruner::Files, Pruner::Deleted)).0,
        vec![false, true, true, true, false, true]
    );
}

#[test]
fn visited_pruner_prunes_the_second_time() {
    let pruner = Pruner::Visited;
    let mut visited = Vec::new();
    let tree = EntryStatus::Added(entry("tree", 1, EntryKind::Tree));
    let same_hash_elsewhere = EntryStatus::Modified {
        to_entry: entry("other", 1, EntryKind::Tree),
        from_entry: entry("other", 9, EntryKind::Tree),
    };
    let deleted = EntryStatus::Deleted(entry("tree", 1, EntryKind::Tree));
    assert!(!pruner.should_prune(&tree, &mut visited));
    assert_eq!(visited, vec![hash(1)]);
    assert!(pruner.should_prune(&tree, &mut visited));
    assert!(pruner.should_prune(&same_hash_elsewhere, &mut visited));
    assert!(!pruner.should_prune(&deleted, &mut visited));
    assert_eq!(visited, vec![hash(1)]);
    assert!(contains_hash(&visited, hash(1)));
    assert!(!contains_hash(&visited, hash(2)));
}

#[test]
fn always_first_behaves_as_always() {
    for second in [
        Pruner::Never,
        Pruner::Always,
        Pruner::Files,
        Pruner::Deleted,
        Pruner::Visited,
        Pruner::either(Pruner::Visited, Pruner::Files),
    ] {
        let (pruned, visited) = answers(&Pruner::either(Pruner::Always, second));
        assert_eq!(pruned, answers(&Pruner::Always).0);
        assert_eq!(visited, vec![]);
    }
}

#[test]
fn never_twice_behaves_as_never() {
    let (pruned, visited) = answers(&Pruner::either(Pruner::Never, Pruner::Never));
    assert_eq!(pruned, vec![false; 6]);
    assert_eq!(visited, vec![]);
}

#[test]
fn second_pruner_is_asked_only_where_the_first_lets_through() {
    let pruner = Pruner::either(Pruner::Files, Pruner::Visited);
    let (pruned, visited) = answers(&pruner);
    assert_eq!(pruned, vec![false, true, false, true, false, true]);
    // Only the trees reached the second pruner, and a deletion is not remembered.
    assert_eq!(visited, vec![hash(1), hash(5)]);
}
