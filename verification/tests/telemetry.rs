use mononoke::hash::NodeHash;
use mononoke::sorting::sort_texts;
use mononoke::telemetry::{
    finish_record, format_nodes_list, format_utf8_bytes_list, getfiles_summary,
    gettreepack_summary, join_file_summary, join_treepack_summary, latency_sample, start_record,
    Command, Outcome,
};

fn hash(n: u8) -> NodeHash {
    NodeHash { bytes: [n; 20] }
}

#[test]
fn command_names() {
    let names = [
        (Command::Hello, "hello"),
        (Command::Unbundle, "unbundle"),
        (Command::Heads, "heads"),
        (Command::Lookup, "lookup"),
        (Command::Listkeys, "listkeys"),
        (Command::Known, "known"),
        (Command::Between, "between"),
        (Command::Getbundle, "getbundle"),
        (Command::Gettreepack, "gettreepack"),
        (Command::Getfiles, "getfiles"),
    ];
    assert_eq!(Command::all().len(), names.len());
    for (command, name) in names {
        assert_eq!(command.name(), name);
        assert_eq!(Command::from_name(name), Some(command));
    }
    assert_eq!(Command::from_name("clone"), None);
    assert_eq!(Command::from_name("Hello"), None);
    assert_eq!(Command::from_name(""), None);
}

#[test]
fn listkeys_stays_a_command() {
    assert_eq!(Command::from_name("listkeys"), Some(Command::Listkeys));
}

#[test]
fn records_of_a_call() {
    let start = start_record(Command::Gettreepack, Some("rootdir: ".to_string()));
    assert_eq!(start.command, Command::Gettreepack);
    assert_eq!(start.args, Some("rootdir: ".to_string()));
    assert_eq!(start.message, "Start processing");
    assert_eq!(start.outcome, None);
    let end = finish_record(start, false, 1234);
    assert_eq!(end.command, Command::Gettreepack);
    assert_eq!(end.args, Some("rootdir: ".to_string()));
    assert_eq!(end.message, "Command processed");
    assert_eq!(end.outcome, Some(Outcome { success: false, duration_ms: 1234 }));
    let start = start_record(Command::Hello, None);
    assert_eq!(start.args, None);
    assert_eq!(
        finish_record(start, true, 0).outcome,
        Some(Outcome { success: true, duration_ms: 0 })
    );
}

#[test]
fn three_commands_feed_a_histogram() {
    for (command, name) in [
        (Command::Getbundle, "getbundle_ms"),
        (Command::Gettreepack, "gettreepack_ms"),
        (Command::Getfiles, "getfiles_ms"),
    ] {
        assert_eq!(command.histogram(), Some(name));
        let sample = latency_sample(command, 250).unwrap();
        assert_eq!(sample.histogram, name);
        assert_eq!(sample.value, 250);
    }
    for command in [
        Command::Hello,
        Command::Unbundle,
        Command::Heads,
        Command::Lookup,
        Command::Listkeys,
        Command::Known,
        Command::Between,
    ] {
        assert_eq!(command.histogram(), None);
        assert!(latency_sample(command, 250).is_none());
    }
    assert_eq!(latency_sample(Command::Getfiles, u64::MAX).unwrap().value, i64::MAX);
    assert_eq!(
        latency_sample(Command::Getfiles, i64::MAX as u64).unwrap().value,
        i64::MAX
    );
}

#[test]
fn lists_are_sorted_for_the_summary() {
    assert_eq!(
        format_nodes_list(vec![hash(0xbb), hash(0x0a), hash(0xa0)]),
        "0a0a0a0a0a0a0a0a0a0a0a0a0a0a0a0a0a0a0a0a a0a0a0a0a0a0a0a0a0a0a0a0a0a0a0a0a0a0a0a0 bbbbbbbbbbbbbbbbbbbbbbbbbbbbbbbbbbbbbbbb"
    );
    assert_eq!(format_nodes_list(vec![]), "");
    assert_eq!(
        format_utf8_bytes_list(vec![b"b".to_vec(), b"a/c".to_vec(), b"a".to_vec()]),
        "a a/c b"
    );
    assert_eq!(format_utf8_bytes_list(vec![vec![0x66, 0xff, 0x6f]]), "f\u{fffd}o");
}

#[test]
fn summary_of_a_tree_fetch() {
    assert_eq!(
        gettreepack_summary(
            &b"dir".to_vec(),
            &vec![hash(0x22), hash(0x11)],
            &vec![hash(0x33)],
            &vec![b"y".to_vec(), b"x".to_vec()],
        ),
        "rootdir: dir, mfnodes: 1111111111111111111111111111111111111111 \
         2222222222222222222222222222222222222222, basemfnodes: \
         3333333333333333333333333333333333333333, directories: x y"
    );
    assert_eq!(
        gettreepack_summary(&vec![], &vec![], &vec![], &vec![]),
        "rootdir: , mfnodes: , basemfnodes: , directories: "
    );
}

#[test]
fn summary_of_a_file_request() {
    assert_eq!(
        getfiles_summary(hash(0x5c), &b"path/to/file".to_vec()),
        "node: 5c5c5c5c5c5c5c5c5c5c5c5c5c5c5c5c5c5c5c5c, path: path/to/file"
    );
}

#[test]
fn summaries_are_put_together_from_texts() {
    assert_eq!(
        join_treepack_summary("r", "m1 m2", "b", "d"),
        "rootdir: r, mfnodes: m1 m2, basemfnodes: b, directories: d"
    );
    assert_eq!(join_file_summary("abc", "p/q"), "node: abc, path: p/q");
}

#[test]
fn byte_strings_are_sorted_by_their_bytes() {
    let texts: Vec<Vec<u8>> = ["b", "ab", "", "a", "b", "B", "abc", "\u{e9}"]
        .iter()
        .map(|t| t.as_bytes().to_vec())
        .collect();
    let mut expected = texts.clone();
    expected.sort();
    assert_eq!(sort_texts(&texts), expected);
    assert_eq!(
        sort_texts(&texts),
        ["", "B", "a", "ab", "abc", "b", "b", "\u{e9}"]
            .iter()
            .map(|t| t.as_bytes().to_vec())
            .collect::<Vec<_>>()
    );
    assert_eq!(sort_texts(&vec![]), Vec::<Vec<u8>>::new());
}
