use mononoke::hash::NodeHash;
use mononoke::lookup::{
    generate_resp_buf, lookup, lookup_bookmark_resolved, lookup_changeset_checked, lookup_start,
    LookupStep,
};

fn node(n: u8) -> NodeHash {
    NodeHash { bytes: [n; 20] }
}

#[test]
fn response_record_layout() {
    assert_eq!(&generate_resp_buf(true, b"abc")[..], b"1 abc\n");
    assert_eq!(&generate_resp_buf(false, b"no")[..], b"0 no\n");
    assert_eq!(&generate_resp_buf(true, b"")[..], b"1 \n");
}

#[test]
fn existing_hash_wins_over_bookmark_of_the_same_name() {
    let key = "1111111111111111111111111111111111111111";
    let elsewhere = node(0x22);
    assert_eq!(
        &lookup(key, true, Some(elsewhere))[..],
        b"1 1111111111111111111111111111111111111111\n"
    );
}

#[test]
fn hash_that_does_not_exist_falls_back_to_the_bookmark() {
    let key = "1111111111111111111111111111111111111111";
    assert_eq!(
        &lookup(key, false, Some(node(0x22)))[..],
        b"1 2222222222222222222222222222222222222222\n"
    );
    assert_eq!(
        &lookup(key, false, None)[..],
        b"0 1111111111111111111111111111111111111111 not found\n"
    );
}

#[test]
fn upper_case_hash_is_answered_in_lower_case() {
    let key = "ABCDEFABCDEFABCDEFABCDEFABCDEFABCDEFABCD";
    assert_eq!(
        &lookup(key, true, None)[..],
        b"1 abcdefabcdefabcdefabcdefabcdefabcdefabcd\n"
    );
}

#[test]
fn bookmark_name_is_resolved() {
    assert_eq!(
        &lookup("master", true, Some(node(0xab)))[..],
        b"1 abababababababababababababababababababab\n"
    );
    assert_eq!(&lookup("master", true, None)[..], b"0 master not found\n");
    assert_eq!(&lookup("", false, None)[..], b"0  not found\n");
}

#[test]
fn key_that_is_neither_is_invalid_input() {
    assert_eq!(&lookup("caf\u{e9}", true, Some(node(1)))[..], b"0 invalid input\n");
}

#[test]
fn lookup_steps() {
    match lookup_start("3333333333333333333333333333333333333333") {
        LookupStep::CheckChangeset(n) => assert_eq!(n, node(0x33)),
        _ => panic!("a hash is checked first"),
    }
    assert!(matches!(lookup_start("stable"), LookupStep::ResolveBookmark));
    match lookup_start("\u{fc}ber") {
        LookupStep::Respond(resp) => assert_eq!(&resp[..], b"0 invalid input\n"),
        _ => panic!("an invalid key is answered at once"),
    }
    match lookup_changeset_checked(node(0x33), true) {
        LookupStep::Respond(resp) => {
            assert_eq!(&resp[..], b"1 3333333333333333333333333333333333333333\n")
        }
        _ => panic!("an existing changeset is the answer"),
    }
    assert!(matches!(
        lookup_changeset_checked(node(0x33), false),
        LookupStep::ResolveBookmark
    ));
    assert_eq!(
        &lookup_bookmark_resolved("stable", Some(node(0x44)))[..],
        b"1 4444444444444444444444444444444444444444\n"
    );
    assert_eq!(
        &lookup_bookmark_resolved("stable", None)[..],
        b"0 stable not found\n"
    );
}
