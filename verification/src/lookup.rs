//! The `lookup` command: resolving a key to a changeset.
//!
//! A key may be the hex text of a hash, the name of a bookmark, or both. A
//! key that reads as a hash is tried as a hash first and wins if that
//! changeset exists; otherwise the key is tried as a bookmark. A key that
//! is neither is answered with a failure record, which is an answer and no
//! protocol error.
//!
//! The engine does not read the repository itself. It says what has to be
//! asked next and turns the answers into the response.

use vstd::prelude::*;
use vstd::string::StringSliceAdditionalSpecFns;
use bytes::Bytes;
use crate::buffer::{buffer_contents, buffer_with_capacity, bytes_contents, freeze, put_byte, put_bytes};
use crate::hash::{hash_of_text, hex_of, hex_value, is_hash_text, NodeHash};

verus! {

/// A response record: `1` for success or `0` for failure, a space, the
/// message, and a newline.
pub open spec fn response_record(success: bool, message: Seq<u8>) -> Seq<u8> {
    seq![if success { 49u8 } else { 48u8 }, 32u8] + message + seq![10u8]
}

/// Builds a response record.
pub fn generate_resp_buf(success: bool, message: &[u8]) -> (resp: Bytes)
    ensures
        bytes_contents(resp) == response_record(success, message@),
{
    let mut buf = buffer_with_capacity(message.len().saturating_add(3));
    if success {
        put_byte(&mut buf, 49u8);
    } else {
        put_byte(&mut buf, 48u8);
    }
    put_byte(&mut buf, 32u8);
    put_bytes(&mut buf, message);
    put_byte(&mut buf, 10u8);
    assert(buffer_contents(buf) =~= response_record(success, message@));
    freeze(buf)
}

/// Whether a key can name a bookmark: all its bytes are ASCII.
pub open spec fn is_bookmark_text(key: Seq<u8>) -> bool {
    forall|i: int| 0 <= i < key.len() ==> #[trigger] key[i] < 128
}

/// The text ` not found` as bytes.
pub open spec fn not_found_suffix() -> Seq<u8> {
    seq![32u8, 110u8, 111u8, 116u8, 32u8, 102u8, 111u8, 117u8, 110u8, 100u8]
}

/// The text `invalid input` as bytes.
pub open spec fn invalid_input() -> Seq<u8> {
    seq![105u8, 110u8, 118u8, 97u8, 108u8, 105u8, 100u8, 32u8, 105u8, 110u8, 112u8, 117u8, 116u8]
}

/// The answer for a changeset that was found: success and its hex text.
pub open spec fn found_record(hash: NodeHash) -> Seq<u8> {
    response_record(true, hex_of(hash@))
}

/// The answer for a bookmark that does not exist: failure, the bookmark's
/// name and ` not found`.
pub open spec fn missing_record(key: Seq<u8>) -> Seq<u8> {
    response_record(false, key + not_found_suffix())
}

/// What the bookmark stage answers for a key: the bookmark's target, or
/// that the bookmark was not found.
pub open spec fn bookmark_answer(key: Seq<u8>, bookmark: Option<NodeHash>) -> Seq<u8> {
    match bookmark {
        Some(target) => found_record(target),
        None => missing_record(key),
    }
}

/// The response to `lookup` for a key, given what the repository says:
/// whether the changeset that the key names as a hash exists, and what the
/// bookmark of that name points to. Each of the two is looked at only where
/// the key can be read that way; the hash is tried first.
pub open spec fn lookup_answer(
    key: Seq<u8>,
    changeset_exists: bool,
    bookmark: Option<NodeHash>,
) -> Seq<u8> {
    if !is_bookmark_text(key) {
        response_record(false, invalid_input())
    } else if is_hash_text(key) && changeset_exists {
        response_record(true, hex_of(hash_of_text(key)))
    } else {
        bookmark_answer(key, bookmark)
    }
}

/// What `lookup` does next.
pub enum LookupStep {
    /// Ask the repository whether this changeset exists.
    CheckChangeset(NodeHash),
    /// Ask the repository what the bookmark named by the key points to.
    ResolveBookmark,
    /// Send this response.
    Respond(Bytes),
}

fn is_ascii_bytes(key: &[u8]) -> (r: bool)
    ensures
        r == is_bookmark_text(key@),
{
    let mut i: usize = 0;
    while i < key.len()
        invariant
            i <= key@.len(),
            forall|j: int| 0 <= j < i ==> #[trigger] key@[j] < 128,
        decreases key@.len() - i,
    {
        if key[i] >= 128 {
            return false;
        }
        i += 1;
    }
    true
}

/// The first step for a key. A key that reads as a hash has its changeset
/// checked; another key that can name a bookmark has the bookmark resolved;
/// any other key is answered at once with the failure `invalid input`.
pub fn lookup_start(key: &str) -> (step: LookupStep)
    ensures
        is_hash_text(key.spec_bytes()) ==> (step matches LookupStep::CheckChangeset(node) && node@
            == hash_of_text(key.spec_bytes())),
        !is_hash_text(key.spec_bytes()) && is_bookmark_text(key.spec_bytes()) ==> step
            is ResolveBookmark,
        !is_bookmark_text(key.spec_bytes()) ==> (step matches LookupStep::Respond(resp)
            && bytes_contents(resp) == response_record(false, invalid_input())),
{
    let text = key.as_bytes();
    let node = NodeHash::from_hex(text);
    let names_bookmark = is_ascii_bytes(text);
    proof {
        if is_hash_text(text@) {
            lemma_hash_text_is_bookmark_text(text@);
        }
    }
    match node {
        Some(node) => LookupStep::CheckChangeset(node),
        None => {
            if names_bookmark {
                LookupStep::ResolveBookmark
            } else {
                let message: [u8; 13] = [105, 110, 118, 97, 108, 105, 100, 32, 105, 110, 112, 117, 116];
                assert(message@ =~= invalid_input());
                LookupStep::Respond(generate_resp_buf(false, message.as_slice()))
            }
        },
    }
}

/// The step after the repository said whether the changeset exists: the
/// changeset's hex text as a success if it does, else the bookmark stage.
pub fn lookup_changeset_checked(node: NodeHash, exists: bool) -> (step: LookupStep)
    ensures
        exists ==> (step matches LookupStep::Respond(resp) && bytes_contents(resp)
            == found_record(node)),
        !exists ==> step is ResolveBookmark,
{
    if exists {
        let hex = node.to_hex();
        LookupStep::Respond(generate_resp_buf(true, hex.as_slice()))
    } else {
        LookupStep::ResolveBookmark
    }
}

/// The response after the repository said what the bookmark points to.
pub fn lookup_bookmark_resolved(key: &str, bookmark: Option<NodeHash>) -> (resp: Bytes)
    ensures
        bytes_contents(resp) == bookmark_answer(key.spec_bytes(), bookmark),
{
    match bookmark {
        Some(target) => {
            let hex = target.to_hex();
            generate_resp_buf(true, hex.as_slice())
        },
        None => {
            let suffix: [u8; 10] = [32, 110, 111, 116, 32, 102, 111, 117, 110, 100];
            assert(suffix@ =~= not_found_suffix());
            let mut message: Vec<u8> = Vec::new();
            message.extend_from_slice(key.as_bytes());
            message.extend_from_slice(suffix.as_slice());
            assert(message@ =~= key.spec_bytes() + not_found_suffix());
            generate_resp_buf(false, message.as_slice())
        },
    }
}

/// The response to `lookup` where both answers of the repository are at
/// hand: whether the changeset that the key names as a hash exists, and
/// what the bookmark of that name points to.
pub fn lookup(key: &str, changeset_exists: bool, bookmark: Option<NodeHash>) -> (resp: Bytes)
    ensures
        bytes_contents(resp) == lookup_answer(key.spec_bytes(), changeset_exists, bookmark),
{
    proof {
        if is_hash_text(key.spec_bytes()) {
            lemma_hash_text_is_bookmark_text(key.spec_bytes());
        }
    }
    match lookup_start(key) {
        LookupStep::Respond(resp) => resp,
        LookupStep::ResolveBookmark => lookup_bookmark_resolved(key, bookmark),
        LookupStep::CheckChangeset(node) => {
            match lookup_changeset_checked(node, changeset_exists) {
                LookupStep::Respond(resp) => resp,
                _ => lookup_bookmark_resolved(key, bookmark),
            }
        },
    }
}

/// Hex digits are ASCII, so a key that reads as a hash can also name a
/// bookmark.
pub proof fn lemma_hash_text_is_bookmark_text(key: Seq<u8>)
    requires
        is_hash_text(key),
    ensures
        is_bookmark_text(key),
{
    assert forall|i: int| 0 <= i < key.len() implies #[trigger] key[i] < 128 by {
        assert(hex_value(key[i]).is_some());
    }
}

/// A key that is the hash of an existing changeset resolves to that
/// changeset, whatever a bookmark of the same name points to.
pub proof fn lemma_existing_hash_wins(key: Seq<u8>, bookmark: Option<NodeHash>)
    requires
        is_hash_text(key),
    ensures
        lookup_answer(key, true, bookmark) == response_record(true, hex_of(hash_of_text(key))),
{
    lemma_hash_text_is_bookmark_text(key);
}

} // verus!
