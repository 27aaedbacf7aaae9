use mononoke::caps::{
    bundle2_capabilities, bundle2caps, encode_capabilities, hello, join, percent_encode,
    wireprotocaps, Capability,
};

#[test]
fn bundle2_capability_string_is_exact() {
    assert_eq!(
        bundle2caps(),
        "HG20%0Achangegroup%3D02%0Ab2x%3Ainfinitepush%0Ab2x%3Ainfinitepushscratchbookmarks%0Apushkey%0Atreemanifestserver%3DTrue%0Ab2x%3Arebase%0Ab2x%3Arebasepackpart"
    );
}

#[test]
fn bundle2_capabilities_do_not_advertise_listkeys() {
    assert!(!bundle2caps().contains("listkeys"));
    let answer = hello();
    assert_eq!(answer.len(), 1);
    assert_eq!(answer[0].0, "capabilities");
    for cap in &answer[0].1 {
        assert!(!cap.contains("listkeys"));
    }
}

#[test]
fn hello_lists_wire_capabilities_then_bundle2() {
    let answer = hello();
    let caps = &answer[0].1;
    assert_eq!(caps.len(), 11);
    assert_eq!(&caps[..10], &wireprotocaps()[..]);
    assert_eq!(caps[10], format!("bundle2={}", bundle2caps()));
}

#[test]
fn wire_capabilities_are_exact() {
    assert_eq!(
        wireprotocaps(),
        vec![
            "lookup",
            "known",
            "getbundle",
            "unbundle=HG10GZ,HG10BZ,HG10UN",
            "gettreepack",
            "remotefilelog",
            "pushkey",
            "stream-preferred",
            "stream_option",
            "streamreqs=generaldelta,lz4revlog,revlogv1",
        ]
    );
}

#[test]
fn percent_encoding_keeps_unreserved_bytes() {
    assert_eq!(percent_encode("aZ09-_.~"), "aZ09-_.~");
    assert_eq!(percent_encode("a=b\nc:d,e"), "a%3Db%0Ac%3Ad%2Ce");
    assert_eq!(percent_encode("\u{e9}"), "%C3%A9");
    assert_eq!(percent_encode(""), "");
}

#[test]
fn capability_table_is_written_one_feature_per_line() {
    let table = bundle2_capabilities();
    assert_eq!(table.len(), 8);
    assert!(table.iter().all(|cap| cap.name != "listkeys"));
    assert_eq!(
        encode_capabilities(&table),
        "HG20\nchangegroup=02\nb2x:infinitepush\nb2x:infinitepushscratchbookmarks\npushkey\n\
         treemanifestserver=True\nb2x:rebase\nb2x:rebasepackpart"
    );
    let several = vec![
        Capability { name: "a".to_string(), values: vec!["1".to_string(), "2".to_string()] },
        Capability { name: "b".to_string(), values: vec![] },
    ];
    assert_eq!(encode_capabilities(&several), "a=1,2\nb");
    assert_eq!(encode_capabilities(&vec![]), "");
    assert_eq!(join(&vec![], ", "), "");
    assert_eq!(join(&vec!["x".to_string()], ", "), "x");
    assert_eq!(join(&vec!["x".to_string(), "y".to_string(), "z".to_string()], ", "), "x, y, z");
}
