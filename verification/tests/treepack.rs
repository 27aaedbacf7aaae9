use mononoke::bundle::{
    create_bundle, listkeys, listkeys_supported, repo_path, treepack_bundle, treepack_part_input,
    wants_bookmarks, Bookmark, GetbundleArgs, RepoPath, TreepackPartInput, WirePart,
};
use mononoke::errors::CommandError;
use mononoke::hash::NodeHash;
use mononoke::manifest::{EntryKind, EntryStatus, ManifestEntry};
use mononoke::pruner::Pruner;
use mononoke::treepack::{
    changed_trees, check_path, dedup_by_hash, plan, tree_of, ChangedTree, GettreepackArgs,
    SeenHashes, DEFAULT_DEPTH,
};
use mononoke::treefetch::{FetchStep, TreeFetch};
use mononoke::treewalk::{ChangedEntry, ManifestStore};

fn hash(n: u8) -> NodeHash {
    NodeHash { bytes: [n; 20] }
}

fn tree(name: &str, n: u8) -> ManifestEntry {
    ManifestEntry { name: name.as_bytes().to_vec(), hash: hash(n), kind: EntryKind::Tree }
}

fn file(name: &str, n: u8) -> ManifestEntry {
    ManifestEntry { name: name.as_bytes().to_vec(), hash: hash(n), kind: EntryKind::File }
}

/// Root 1:  a/ (2) { x/ (3) { f (30) }, g (31) },  b/ (4) { h (32) },  top (33)
/// Root 10: a/ (12) { x/ (13) { f (40) }, g (31) }, c/ (14) { k (34) }, top (33)
/// Root 20: a/ (2) as in root 1, d/ (3): the tree of a/x under another name
fn store() -> ManifestStore {
    let mut store = ManifestStore::new();
    store.insert(hash(1), vec![tree("a", 2), tree("b", 4), file("top", 33)]);
    store.insert(hash(2), vec![file("g", 31), tree("x", 3)]);
    store.insert(hash(3), vec![file("f", 30)]);
    store.insert(hash(4), vec![file("h", 32)]);
    store.insert(hash(10), vec![tree("a", 12), tree("c", 14), file("top", 33)]);
    store.insert(hash(12), vec![file("g", 31), tree("x", 13)]);
    store.insert(hash(13), vec![file("f", 40)]);
    store.insert(hash(14), vec![file("k", 34)]);
    store.insert(hash(20), vec![tree("a", 2), tree("d", 3)]);
    store
}

fn args(mfnodes: Vec<NodeHash>, basemfnodes: Vec<NodeHash>, depth: Option<usize>) -> GettreepackArgs {
    GettreepackArgs { rootdir: Vec::new(), mfnodes, basemfnodes, directories: Vec::new(), depth }
}

fn sent(trees: &[ChangedTree]) -> Vec<(String, String, u8)> {
    trees
        .iter()
        .map(|t| {
            (
                String::from_utf8(t.basepath.clone()).unwrap(),
                String::from_utf8(t.entry.name.clone()).unwrap(),
                t.entry.hash.bytes[0],
            )
        })
        .collect()
}

fn triple(dir: &str, name: &str, n: u8) -> (String, String, u8) {
    (dir.to_string(), name.to_string(), n)
}

#[test]
fn tree_fetch_sends_changed_trees_and_then_the_root() {
    let trees = changed_trees(&args(vec![hash(1)], vec![hash(10)], None), &store()).unwrap();
    assert_eq!(
        sent(&trees),
        vec![triple("", "a", 2), triple("a", "x", 3), triple("", "b", 4), triple("", "", 1)]
    );
}

#[test]
fn tree_fetch_without_a_base_sends_all_trees() {
    let trees = changed_trees(&args(vec![hash(10)], vec![], None), &store()).unwrap();
    assert_eq!(
        sent(&trees),
        vec![triple("", "a", 12), triple("a", "x", 13), triple("", "c", 14), triple("", "", 10)]
    );
}

#[test]
fn tree_fetch_uses_the_first_base_only() {
    let with_one = changed_trees(&args(vec![hash(1)], vec![hash(10)], None), &store()).unwrap();
    let with_two =
        changed_trees(&args(vec![hash(1)], vec![hash(10), hash(1)], None), &store()).unwrap();
    assert_eq!(sent(&with_one), sent(&with_two));
}

#[test]
fn depth_one_sends_exactly_the_root() {
    let trees = changed_trees(&args(vec![hash(1)], vec![hash(10)], Some(1)), &store()).unwrap();
    assert_eq!(sent(&trees), vec![triple("", "", 1)]);
}

#[test]
fn depth_one_reads_no_manifest() {
    let empty = ManifestStore::new();
    let trees = changed_trees(&args(vec![hash(77)], vec![hash(78)], Some(1)), &empty).unwrap();
    assert_eq!(sent(&trees), vec![triple("", "", 77)]);
}

#[test]
fn depth_two_sends_two_levels() {
    let trees = changed_trees(&args(vec![hash(1)], vec![hash(10)], Some(2)), &store()).unwrap();
    assert_eq!(
        sent(&trees),
        vec![triple("", "a", 2), triple("a", "x", 3), triple("", "b", 4), triple("", "", 1)]
    );
    let mut deep = store();
    deep.insert(hash(50), vec![tree("p", 51)]);
    deep.insert(hash(51), vec![tree("q", 52)]);
    deep.insert(hash(52), vec![tree("r", 53)]);
    deep.insert(hash(53), vec![]);
    let trees = changed_trees(&args(vec![hash(50)], vec![], Some(2)), &deep).unwrap();
    assert_eq!(
        sent(&trees),
        vec![triple("", "p", 51), triple("p", "q", 52), triple("", "", 50)]
    );
    let trees = changed_trees(&args(vec![hash(50)], vec![], None), &deep).unwrap();
    assert_eq!(
        sent(&trees),
        vec![
            triple("", "p", 51),
            triple("p", "q", 52),
            triple("p/q", "r", 53),
            triple("", "", 50)
        ]
    );
}

#[test]
fn identical_targets_send_each_hash_once() {
    let once = changed_trees(&args(vec![hash(1)], vec![hash(10)], None), &store()).unwrap();
    let twice =
        changed_trees(&args(vec![hash(1), hash(1)], vec![hash(10)], None), &store()).unwrap();
    assert_eq!(sent(&twice), sent(&once));
    let mut hashes: Vec<u8> = twice.iter().map(|t| t.entry.hash.bytes[0]).collect();
    hashes.sort();
    hashes.dedup();
    assert_eq!(hashes.len(), twice.len());
}

#[test]
fn several_targets_share_what_was_sent() {
    let trees =
        changed_trees(&args(vec![hash(1), hash(20)], vec![hash(10)], None), &store()).unwrap();
    assert_eq!(
        sent(&trees),
        vec![
            triple("", "a", 2),
            triple("a", "x", 3),
            triple("", "b", 4),
            triple("", "", 1),
            triple("", "", 20)
        ]
    );
}

#[test]
fn a_tree_that_occurs_twice_is_sent_once() {
    let trees = changed_trees(&args(vec![hash(20)], vec![], None), &store()).unwrap();
    assert_eq!(
        sent(&trees),
        vec![triple("", "a", 2), triple("a", "x", 3), triple("", "", 20)]
    );
}

#[test]
fn no_targets_send_nothing() {
    assert_eq!(changed_trees(&args(vec![], vec![hash(10)], None), &store()).unwrap().len(), 0);
}

#[test]
fn directories_are_not_supported() {
    let mut request = args(vec![hash(1)], vec![hash(10)], None);
    request.directories = vec![b"a".to_vec()];
    assert_eq!(
        changed_trees(&request, &store()).unwrap_err(),
        CommandError::DirectoriesNotSupported
    );
    assert_eq!(plan(&request).unwrap_err(), CommandError::DirectoriesNotSupported);
    assert_eq!(
        CommandError::DirectoriesNotSupported.message(),
        "directories param is not supported"
    );
    // The check of the directories comes before that of the root directory.
    request.rootdir = b"/".to_vec();
    assert_eq!(
        changed_trees(&request, &store()).unwrap_err(),
        CommandError::DirectoriesNotSupported
    );
}

#[test]
fn malformed_root_directory_is_refused() {
    for bad in [&b"/"[..], b"/a", b"a/", b"a//b", b"a\0b"] {
        let mut request = args(vec![hash(1)], vec![hash(10)], None);
        request.rootdir = bad.to_vec();
        assert_eq!(changed_trees(&request, &store()).unwrap_err(), CommandError::InvalidPath);
        assert!(!check_path(&bad.to_vec()));
    }
    assert!(!check_path(&Vec::new()));
    assert!(check_path(&b"a".to_vec()));
    assert!(check_path(&b"a/b/c.txt".to_vec()));
}

#[test]
fn root_directory_is_the_base_path_of_what_is_sent() {
    let mut request = args(vec![hash(1)], vec![hash(10)], None);
    request.rootdir = b"sub/dir".to_vec();
    let trees = changed_trees(&request, &store()).unwrap();
    assert_eq!(
        sent(&trees),
        vec![
            triple("sub/dir", "a", 2),
            triple("sub/dir/a", "x", 3),
            triple("sub/dir", "b", 4),
            triple("sub/dir", "", 1)
        ]
    );
}

#[test]
fn missing_manifest_fails_the_request() {
    assert_eq!(
        changed_trees(&args(vec![hash(99)], vec![hash(10)], None), &store()).unwrap_err(),
        CommandError::ManifestNotFound(hash(99))
    );
    assert_eq!(
        changed_trees(&args(vec![hash(1)], vec![hash(98)], None), &store()).unwrap_err(),
        CommandError::ManifestNotFound(hash(98))
    );
    assert_eq!(
        changed_trees(&args(vec![hash(1), hash(99)], vec![hash(10)], None), &store()).unwrap_err(),
        CommandError::ManifestNotFound(hash(99))
    );
}

#[test]
fn failures_have_a_message() {
    assert_eq!(CommandError::InvalidPath.message(), "invalid path");
    assert_eq!(CommandError::ManifestNotFound(hash(1)).message(), "manifest not found");
    assert_eq!(CommandError::ChangesetNotFound(hash(1)).message(), "changeset not found");
}

#[test]
fn plan_of_a_request() {
    let p = plan(&args(vec![hash(1)], vec![], None)).unwrap();
    assert_eq!(p.depth, DEFAULT_DEPTH);
    assert_eq!(DEFAULT_DEPTH, 2 << 16);
    assert_eq!(p.base, NodeHash::null());
    assert!(!p.shared_memory);
    assert!(matches!(p.pruner(), Pruner::Either(_, _)));
    let p = plan(&args(vec![hash(1), hash(2)], vec![hash(3), hash(4)], Some(7))).unwrap();
    assert_eq!(p.depth, 7);
    assert_eq!(p.base, hash(3));
    assert!(p.shared_memory);
}

#[test]
fn only_added_and_modified_trees_are_sent() {
    let at = |status| ChangedEntry { dirname: b"d".to_vec(), status };
    let t = tree_of(&at(EntryStatus::Added(tree("t", 1)))).unwrap();
    assert_eq!((t.basepath, t.entry), (b"d".to_vec(), tree("t", 1)));
    let t = tree_of(&at(EntryStatus::Modified { to_entry: tree("t", 2), from_entry: tree("t", 3) }))
        .unwrap();
    assert_eq!(t.entry, tree("t", 2));
    assert!(tree_of(&at(EntryStatus::Deleted(tree("t", 1)))).is_none());
    assert!(tree_of(&at(EntryStatus::Added(file("f", 1)))).is_none());
}

#[test]
fn dedup_keeps_the_first_of_each_hash() {
    let at = |dir: &str, entry| ChangedTree { entry, basepath: dir.as_bytes().to_vec() };
    let out = dedup_by_hash(vec![
        at("", tree("a", 1)),
        at("", tree("b", 2)),
        at("x", tree("c", 1)),
        at("y", tree("d", 3)),
        at("z", tree("e", 2)),
    ]);
    assert_eq!(sent(&out), vec![triple("", "a", 1), triple("", "b", 2), triple("y", "d", 3)]);
    let mut seen = SeenHashes::new();
    assert!(seen.first_time(hash(1)));
    assert!(seen.first_time(hash(2)));
    assert!(!seen.first_time(hash(1)));
}

#[test]
fn repository_path_of_a_sent_tree() {
    let at = |dir: &str, entry| ChangedTree { entry, basepath: dir.as_bytes().to_vec() };
    assert_eq!(repo_path(&at("", tree("", 1))), RepoPath::Root);
    assert_eq!(repo_path(&at("", tree("a", 1))), RepoPath::Directory(b"a".to_vec()));
    assert_eq!(repo_path(&at("a", tree("b", 1))), RepoPath::Directory(b"a/b".to_vec()));
    assert_eq!(repo_path(&at("a", tree("", 1))), RepoPath::Directory(b"a".to_vec()));
    assert_eq!(repo_path(&at("a", file("f", 1))), RepoPath::File(b"a/f".to_vec()));
}

#[test]
fn tree_record_holds_what_it_was_given() {
    let changed = ChangedTree { entry: tree("x", 3), basepath: b"a".to_vec() };
    let input = treepack_part_input(&changed, Some(hash(13)), None, hash(100), b"f\0...".to_vec());
    assert_eq!(
        input,
        TreepackPartInput {
            node: hash(3),
            p1: Some(hash(13)),
            p2: None,
            content: b"f\0...".to_vec(),
            name: b"x".to_vec(),
            linknode: hash(100),
            basepath: b"a".to_vec(),
        }
    );
    let bundle = treepack_bundle(vec![input.clone()]);
    assert_eq!(bundle.parts, vec![WirePart::Treepack(vec![input])]);
    assert_eq!(bundle.compression, None);
}

fn bookmarks() -> Vec<Bookmark> {
    vec![
        Bookmark { name: b"master".to_vec(), target: hash(0x11) },
        Bookmark { name: b"stable".to_vec(), target: hash(0x22) },
    ]
}

fn bookmark_items() -> Vec<(Vec<u8>, Vec<u8>)> {
    vec![
        (b"master".to_vec(), b"1111111111111111111111111111111111111111".to_vec()),
        (b"stable".to_vec(), b"2222222222222222222222222222222222222222".to_vec()),
    ]
}

#[test]
fn getbundle_sends_the_changegroup_and_then_the_bookmarks() {
    let request = GetbundleArgs {
        common: vec![hash(1)],
        heads: vec![hash(2)],
        listkeys: vec![b"phases".to_vec(), b"bookmarks".to_vec()],
    };
    assert!(wants_bookmarks(&request));
    let bundle = create_bundle(&request, b"changegroup".to_vec(), &bookmarks());
    assert_eq!(
        bundle.parts,
        vec![
            WirePart::Changegroup(b"changegroup".to_vec()),
            WirePart::Listkeys { namespace: b"bookmarks".to_vec(), items: bookmark_items() },
        ]
    );
    assert_eq!(bundle.compression, None);
}

#[test]
fn getbundle_without_listkeys_sends_the_changegroup_alone() {
    for listkeys in [vec![], vec![b"phases".to_vec()], vec![b"bookmark".to_vec()]] {
        let request = GetbundleArgs { common: vec![], heads: vec![hash(2)], listkeys };
        assert!(!wants_bookmarks(&request));
        let bundle = create_bundle(&request, b"cg".to_vec(), &bookmarks());
        assert_eq!(bundle.parts, vec![WirePart::Changegroup(b"cg".to_vec())]);
        assert_eq!(bundle.compression, None);
    }
}

#[test]
fn listkeys_answers_for_bookmarks_only() {
    assert_eq!(listkeys(&b"bookmarks".to_vec(), &bookmarks()), bookmark_items());
    assert_eq!(listkeys(&b"phases".to_vec(), &bookmarks()), vec![]);
    assert_eq!(listkeys(&b"".to_vec(), &bookmarks()), vec![]);
    assert_eq!(listkeys(&b"bookmarks".to_vec(), &vec![]), vec![]);
    assert!(listkeys_supported(&b"bookmarks".to_vec()));
    assert!(!listkeys_supported(&b"Bookmarks".to_vec()));
}

fn fetched(request: &GettreepackArgs, store: &ManifestStore) -> Result<Vec<ChangedTree>, CommandError> {
    let nothing = Vec::new();
    let mut fetch = TreeFetch::new(request)?;
    let mut trees = Vec::new();
    loop {
        match fetch.step() {
            FetchStep::Done => return Ok(trees),
            FetchStep::Idle => {}
            FetchStep::Send(tree) => trees.push(tree),
            FetchStep::Fetch(to, from) => {
                let to = store.entries(to, &nothing).ok_or(CommandError::ManifestNotFound(to))?;
                let from =
                    store.entries(from, &nothing).ok_or(CommandError::ManifestNotFound(from))?;
                fetch.supply(to, from);
            }
        }
    }
}

#[test]
fn stepwise_tree_fetch_sends_what_the_request_is_answered_with() {
    let requests = vec![
        args(vec![hash(1)], vec![hash(10)], None),
        args(vec![hash(1)], vec![], None),
        args(vec![hash(10)], vec![hash(1)], Some(2)),
        args(vec![hash(1)], vec![hash(10)], Some(1)),
        args(vec![hash(1)], vec![hash(10)], Some(0)),
        args(vec![hash(1), hash(1)], vec![hash(10)], None),
        args(vec![hash(1), hash(20), hash(10)], vec![], None),
        args(vec![hash(20), hash(1)], vec![hash(10)], Some(1)),
        args(vec![hash(20)], vec![], None),
        args(vec![], vec![hash(10)], None),
    ];
    for request in &requests {
        let expected = changed_trees(request, &store()).unwrap();
        let got = fetched(request, &store()).unwrap();
        assert_eq!(sent(&got), sent(&expected));
    }
}

#[test]
fn stepwise_tree_fetch_fails_as_the_request_does() {
    let mut request = args(vec![hash(1)], vec![hash(10)], None);
    request.directories = vec![b"a".to_vec()];
    assert_eq!(fetched(&request, &store()).unwrap_err(), CommandError::DirectoriesNotSupported);
    let mut request = args(vec![hash(1)], vec![hash(10)], None);
    request.rootdir = b"a//b".to_vec();
    assert_eq!(fetched(&request, &store()).unwrap_err(), CommandError::InvalidPath);
    let request = args(vec![hash(1), hash(99)], vec![hash(10)], None);
    assert_eq!(
        fetched(&request, &store()).unwrap_err(),
        CommandError::ManifestNotFound(hash(99))
    );
}

#[test]
fn stepwise_tree_fetch_asks_before_it_sends() {
    let mut fetch = TreeFetch::new(&args(vec![hash(1)], vec![hash(10)], None)).unwrap();
    assert!(matches!(fetch.step(), FetchStep::Idle));
    assert!(matches!(fetch.step(), FetchStep::Fetch(to, from) if to == hash(1) && from == hash(10)));
    fetch.supply(&vec![tree("a", 2)], &vec![]);
    match fetch.step() {
        FetchStep::Send(sent) => assert_eq!(sent.entry, tree("a", 2)),
        _ => panic!("the added tree is sent"),
    }
    assert!(
        matches!(fetch.step(), FetchStep::Fetch(to, from) if to == hash(2) && from == NodeHash::null())
    );
    fetch.supply(&vec![file("f", 3)], &vec![]);
    match fetch.step() {
        FetchStep::Send(sent) => assert_eq!(sent.entry, tree("", 1)),
        _ => panic!("the root is sent last"),
    }
    assert!(matches!(fetch.step(), FetchStep::Done));
    assert!(matches!(fetch.step(), FetchStep::Done));
}
