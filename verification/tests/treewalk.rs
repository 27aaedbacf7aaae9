use mononoke::hash::NodeHash;
use mononoke::manifest::{copy_bytes, EntryKind, EntryStatus, ManifestEntry};
use mononoke::pruner::Pruner;
use mononoke::stepwalk::{TreeWalk, WalkStep};
use mononoke::treewalk::{join_path, keep_unpruned, walk, ChangedEntry, ManifestStore};

fn hash(n: u8) -> NodeHash {
    NodeHash { bytes: [n; 20] }
}

fn tree(name: &str, n: u8) -> ManifestEntry {
    ManifestEntry { name: name.as_bytes().to_vec(), hash: hash(n), kind: EntryKind::Tree }
}

fn file(name: &str, n: u8) -> ManifestEntry {
    ManifestEntry { name: name.as_bytes().to_vec(), hash: hash(n), kind: EntryKind::File }
}

/// New root 1:  a/ (2) { x/ (3) { f (30) }, g (31) },  b/ (4) { h (32) },  top (33)
/// Old root 10: a/ (12) { x/ (13) { f (40) }, g (31) }, c/ (14) { k (34) }, top (33)
fn store() -> ManifestStore {
    let mut store = ManifestStore::new();
    store.insert(hash(1), vec![tree("a", 2), tree("b", 4), file("top", 33)]);
    store.insert(hash(2), vec![file("g", 31), tree("x", 3)]);
    store.insert(hash(3), vec![file("f", 30)]);
    store.insert(hash(4), vec![file("h", 32)]);
    store.insert(hash(10), vec![tree("a", 12), tree("c", 14), file("top", 33)]);
    store.insert(hash(12), vec![file("g", 31), tree("x", 13)]);
    store.insert(hash(13), vec![file("f", 40)]);
    store.insert(hash(14), vec![file("k", 34)]);
    store
}

fn summary(entries: &[ChangedEntry]) -> Vec<String> {
    entries
        .iter()
        .map(|e| {
            let (mark, entry) = match &e.status {
                EntryStatus::Added(e) => ('A', e),
                EntryStatus::Modified { to_entry, .. } => ('M', to_entry),
                EntryStatus::Deleted(e) => ('D', e),
            };
            format!(
                "{} {}",
                mark,
                String::from_utf8(join_path(&e.dirname, &entry.name)).unwrap()
            )
        })
        .collect()
}

fn walked(pruner: Pruner, depth: usize) -> Vec<String> {
    let mut out = Vec::new();
    let mut visited = Vec::new();
    walk(&store(), &pruner, &Vec::new(), hash(1), hash(10), depth, &mut out, &mut visited).unwrap();
    summary(&out)
}

fn stepped(pruner: Pruner, depth: usize) -> Vec<String> {
    let store = store();
    let nothing = Vec::new();
    let mut machine = TreeWalk::new(pruner, Vec::new(), hash(1), hash(10), depth, Vec::new());
    let mut out = Vec::new();
    loop {
        match machine.step() {
            WalkStep::Done => break,
            WalkStep::Report(entry) => out.push(entry),
            WalkStep::Fetch(to, from) => {
                let to = store.entries(to, &nothing).unwrap();
                let from = store.entries(from, &nothing).unwrap();
                machine.supply(to, from);
            }
        }
    }
    summary(&out)
}

#[test]
fn unpruned_walk_reports_every_difference() {
    assert_eq!(
        walked(Pruner::Never, 100),
        vec!["M a", "M a/x", "M a/x/f", "A b", "A b/h", "D c", "D c/k"]
    );
}

#[test]
fn walk_under_the_tree_pack_pruner_reports_trees_only() {
    let pruner = Pruner::either(Pruner::Files, Pruner::Deleted);
    assert_eq!(walked(pruner, 100), vec!["M a", "M a/x", "A b"]);
}

#[test]
fn walk_stops_at_the_depth() {
    assert_eq!(walked(Pruner::Never, 1), vec!["M a", "A b", "D c"]);
    assert_eq!(walked(Pruner::Never, 0), vec!["M a", "A b", "D c"]);
    assert_eq!(
        walked(Pruner::Never, 2),
        vec!["M a", "M a/x", "A b", "A b/h", "D c", "D c/k"]
    );
}

#[test]
fn walk_with_always_first_reports_nothing() {
    assert_eq!(walked(Pruner::Always, 100), Vec::<String>::new());
    assert_eq!(
        walked(Pruner::either(Pruner::Always, Pruner::Never), 100),
        Vec::<String>::new()
    );
    assert_eq!(
        walked(Pruner::either(Pruner::Always, Pruner::Visited), 100),
        Vec::<String>::new()
    );
}

#[test]
fn walk_with_never_twice_reports_what_an_unpruned_walk_reports() {
    assert_eq!(
        walked(Pruner::either(Pruner::Never, Pruner::Never), 100),
        walked(Pruner::Never, 100)
    );
}

#[test]
fn walk_fails_on_a_missing_manifest() {
    let mut store = ManifestStore::new();
    store.insert(hash(1), vec![tree("a", 2)]);
    let mut out = Vec::new();
    let mut visited = Vec::new();
    let pruner = Pruner::Never;
    assert_eq!(
        walk(&store, &pruner, &Vec::new(), hash(1), NodeHash::null(), 10, &mut out, &mut visited),
        Err(hash(2))
    );
    assert_eq!(
        walk(&store, &pruner, &Vec::new(), hash(9), NodeHash::null(), 10, &mut out, &mut visited),
        Err(hash(9))
    );
    assert_eq!(
        walk(&store, &pruner, &Vec::new(), hash(1), hash(8), 10, &mut out, &mut visited),
        Err(hash(8))
    );
}

#[test]
fn stepwise_walk_reports_what_the_walk_reports() {
    for depth in [0usize, 1, 2, 3, 100] {
        assert_eq!(stepped(Pruner::Never, depth), walked(Pruner::Never, depth));
        assert_eq!(
            stepped(Pruner::either(Pruner::Files, Pruner::Deleted), depth),
            walked(Pruner::either(Pruner::Files, Pruner::Deleted), depth)
        );
        assert_eq!(stepped(Pruner::Visited, depth), walked(Pruner::Visited, depth));
    }
}

#[test]
fn stepwise_walk_asks_for_one_directory_at_a_time() {
    let mut machine =
        TreeWalk::new(Pruner::Never, b"root".to_vec(), hash(1), hash(10), 100, Vec::new());
    assert!(matches!(machine.step(), WalkStep::Fetch(to, from) if to == hash(1) && from == hash(10)));
    // Asking again changes nothing.
    assert!(matches!(machine.step(), WalkStep::Fetch(to, from) if to == hash(1) && from == hash(10)));
    machine.supply(&vec![tree("a", 2)], &vec![]);
    match machine.step() {
        WalkStep::Report(entry) => {
            assert_eq!(entry.dirname, b"root".to_vec());
            assert_eq!(entry.status, EntryStatus::Added(tree("a", 2)));
        }
        _ => panic!("the addition is reported"),
    }
    assert!(
        matches!(machine.step(), WalkStep::Fetch(to, from) if to == hash(2) && from == NodeHash::null())
    );
    machine.supply(&vec![], &vec![]);
    assert!(matches!(machine.step(), WalkStep::Done));
    assert_eq!(machine.into_visited(), vec![]);
}

#[test]
fn paths_are_joined_with_a_slash() {
    assert_eq!(join_path(&b"a".to_vec(), &b"b".to_vec()), b"a/b".to_vec());
    assert_eq!(join_path(&b"".to_vec(), &b"b".to_vec()), b"b".to_vec());
    assert_eq!(join_path(&b"a/b".to_vec(), &b"".to_vec()), b"a/b".to_vec());
    assert_eq!(join_path(&b"".to_vec(), &b"".to_vec()), b"".to_vec());
}

#[test]
fn store_finds_the_first_manifest_of_a_hash() {
    let mut store = ManifestStore::new();
    store.insert(hash(1), vec![file("first", 2)]);
    store.insert(hash(1), vec![file("second", 3)]);
    let nothing = Vec::new();
    assert_eq!(store.find(hash(1)), Some(0));
    assert_eq!(store.find(hash(2)), None);
    assert_eq!(store.entries(hash(1), &nothing), Some(&vec![file("first", 2)]));
    assert_eq!(store.entries(NodeHash::null(), &nothing), Some(&vec![]));
    assert_eq!(store.entries(hash(2), &nothing), None);
}

#[test]
fn pruned_differences_are_left_out() {
    let statuses = vec![
        EntryStatus::Added(tree("a", 1)),
        EntryStatus::Added(file("f", 2)),
        EntryStatus::Deleted(tree("g", 3)),
        EntryStatus::Added(tree("b", 1)),
    ];
    let pruner = Pruner::either(Pruner::either(Pruner::Files, Pruner::Deleted), Pruner::Visited);
    let mut visited = Vec::new();
    assert_eq!(
        keep_unpruned(&pruner, &statuses, &mut visited),
        vec![EntryStatus::Added(tree("a", 1))]
    );
    assert_eq!(visited, vec![hash(1)]);
    assert_eq!(copy_bytes(&b"abc".to_vec()), b"abc".to_vec());
}
