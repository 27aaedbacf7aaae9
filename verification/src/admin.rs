//! What the administration tool computes: how it prints a changeset, and
//! how it guesses what a blob holds from the blob's key.

use vstd::prelude::*;
use vstd::string::{StringExecFns, StringSliceAdditionalSpecFns};
use crate::hash::{hash_of_text, is_hash_text, NodeHash};
use crate::manifest::{copy_bytes, same_name};

verus! {

/// The error of the `serde_json` crate.
#[verifier::external_type_specification]
#[verifier::external_body]
pub struct ExJsonError(serde_json::Error);

/// The text that `serde_json::to_string_pretty` gives for a JSON object
/// with the given keys and string values.
pub uninterp spec fn pretty_json_object(entries: Seq<(Seq<char>, Seq<char>)>) -> Seq<char>;

/// The text that `str::to_uppercase` of std gives.
pub uninterp spec fn uppercase_text(text: Seq<char>) -> Seq<char>;

/// `serde_json::to_string_pretty` on the JSON object that has the two given
/// keys with the two given strings as values: the object as indented text.
#[verifier::external_body]
fn pretty_object(first_key: &str, first: &str, second_key: &str, second: &str) -> (out: Result<
    String,
    serde_json::Error,
>)
    ensures
        out is Ok ==> out->Ok_0@ == pretty_json_object(
            seq![(first_key@, first@), (second_key@, second@)],
        ),
{
    let mut object = serde_json::Map::new();
    object.insert(first_key.to_string(), serde_json::Value::String(first.to_string()));
    object.insert(second_key.to_string(), serde_json::Value::String(second.to_string()));
    serde_json::to_string_pretty(&serde_json::Value::Object(object))
}

/// `str::to_uppercase` of std: the text in upper case.
#[verifier::external_body]
fn uppercase(text: &str) -> (out: String)
    ensures
        out@ == uppercase_text(text@),
{
    text.to_uppercase()
}

/// Why a changeset could not be printed.
#[derive(Debug, Clone, Copy, PartialEq, Eq, Structural)]
pub enum OutputError {
    /// The JSON text could not be written.
    Json,
}

/// A changeset on one line: the kind of changeset in brackets, a space, and
/// the changeset's id. `kind` is the kind as it is printed.
pub fn plain_output(kind: &str, changeset_id: &str) -> (out: String)
    ensures
        out@ == seq!['('] + kind@ + seq![')', ' '] + changeset_id@,
{
    proof {
        reveal_strlit("(");
        reveal_strlit(") ");
        assert("("@ =~= seq!['(']);
        assert(") "@ =~= seq![')', ' ']);
    }
    let mut out = "(".to_owned();
    out.append(kind);
    out.append(") ");
    out.append(changeset_id);
    out
}

/// How the tool prints a changeset: as a JSON object with the changeset's
/// id and kind where JSON is asked for, else on one line with the kind in
/// upper case.
pub fn format_output(json_flag: bool, changeset_id: String, changeset_type: &str) -> (out: Result<
    String,
    OutputError,
>)
    ensures
        !json_flag ==> out is Ok && out->Ok_0@ == seq!['('] + uppercase_text(changeset_type@)
            + seq![')', ' '] + changeset_id@,
        json_flag && out is Ok ==> out->Ok_0@ == pretty_json_object(
            seq![("changeset_type"@, changeset_type@), ("changeset_id"@, changeset_id@)],
        ),
{
    if json_flag {
        match pretty_object("changeset_type", changeset_type, "changeset_id", changeset_id.as_str()) {
            Ok(text) => Ok(text),
            Err(_) => Err(OutputError::Json),
        }
    } else {
        let kind = uppercase(changeset_type);
        Ok(plain_output(kind.as_str(), changeset_id.as_str()))
    }
}

/// Whether `needle` occurs in `haystack`.
pub open spec fn occurs_in(needle: Seq<u8>, haystack: Seq<u8>) -> bool {
    exists|k: int|
        0 <= k <= haystack.len() - needle.len() && #[trigger] haystack.subrange(
            k,
            k + needle.len(),
        ) == needle
}

fn occurs_at(needle: &[u8], haystack: &[u8], at: usize) -> (r: bool)
    requires
        at + needle@.len() <= haystack@.len(),
    ensures
        r == (haystack@.subrange(at as int, at + needle@.len()) == needle@),
{
    let mut i: usize = 0;
    let n: usize = haystack.len();
    while i < needle.len()
        invariant
            i <= needle@.len(),
            n == haystack@.len(),
            at + needle@.len() <= haystack@.len(),
            forall|j: int| 0 <= j < i ==> haystack@[at + j] == needle@[j],
        decreases needle@.len() - i,
    {
        if haystack[at + i] != needle[i] {
            assert(haystack@.subrange(at as int, at + needle@.len())[i as int] != needle@[i as int]);
            return false;
        }
        i += 1;
    }
    assert(haystack@.subrange(at as int, at + needle@.len()) =~= needle@);
    true
}

/// Whether `needle` occurs in `haystack`.
pub fn contains_bytes(haystack: &[u8], needle: &[u8]) -> (r: bool)
    ensures
        r == occurs_in(needle@, haystack@),
{
    if needle.len() > haystack.len() {
        return false;
    }
    let last: usize = haystack.len() - needle.len();
    let mut at: usize = 0;
    loop
        invariant
            at <= last,
            last == haystack@.len() - needle@.len(),
            forall|k: int|
                0 <= k < at ==> #[trigger] haystack@.subrange(k, k + needle@.len()) != needle@,
        decreases last - at,
    {
        if occurs_at(needle, haystack, at) {
            return true;
        }
        if at == last {
            return false;
        }
        at += 1;
    }
}

/// What kind of blob a key names, by the word that the key holds: a
/// changeset, a manifest, a file or file contents, tried in this order.
pub open spec fn decoder_for(key: Seq<u8>) -> Option<Seq<char>> {
    if occurs_in("hgchangeset.".spec_bytes(), key) {
        Some("changeset"@)
    } else if occurs_in("hgmanifest.".spec_bytes(), key) {
        Some("manifest"@)
    } else if occurs_in("hgfilenode.".spec_bytes(), key) {
        Some("file"@)
    } else if occurs_in("content.".spec_bytes(), key) {
        Some("contents"@)
    } else {
        None
    }
}

/// Guesses from a blob's key how the blob is to be decoded.
pub fn detect_decode(key: &str) -> (kind: Option<&'static str>)
    ensures
        match decoder_for(key.spec_bytes()) {
            Some(k) => kind.is_some() && kind.unwrap()@ == k,
            None => kind.is_none(),
        },
{
    let bytes = key.as_bytes();
    if contains_bytes(bytes, "hgchangeset.".as_bytes()) {
        Some("changeset")
    } else if contains_bytes(bytes, "hgmanifest.".as_bytes()) {
        Some("manifest")
    } else if contains_bytes(bytes, "hgfilenode.".as_bytes()) {
        Some("file")
    } else if contains_bytes(bytes, "content.".as_bytes()) {
        Some("contents")
    } else {
        None
    }
}

/// How a blob is read through the cache.
#[derive(Debug, Clone, Copy, PartialEq, Eq, Structural)]
pub enum CacheMode {
    /// Read the cache only.
    CacheOnly,
    /// Read the cache, then the store, and leave the cache as it is.
    NoFill,
    /// Read the cache, then the store, and fill the cache.
    Fill,
}

/// The cache mode that a word names: `cache-only`, `no-fill`, and filling
/// the cache for any other word.
pub fn cache_mode(mode: &str) -> (m: CacheMode)
    ensures
        mode@ == "cache-only"@ ==> m is CacheOnly,
        mode@ != "cache-only"@ && mode@ == "no-fill"@ ==> m is NoFill,
        mode@ != "cache-only"@ && mode@ != "no-fill"@ ==> m is Fill,
{
    let word = mode.to_owned();
    if word == "cache-only".to_owned() {
        CacheMode::CacheOnly
    } else if word == "no-fill".to_owned() {
        CacheMode::NoFill
    } else {
        CacheMode::Fill
    }
}

/// The changeset that a word names: the target of the bookmark of that name
/// if there is one, else the changeset whose hash the word is, if it is
/// one.
pub fn resolve_hg_rev(rev: &str, bookmark: Option<NodeHash>) -> (r: Option<NodeHash>)
    ensures
        bookmark.is_some() ==> r == bookmark,
        bookmark.is_none() && is_hash_text(rev.spec_bytes()) ==> r.is_some()
            && r.unwrap()@ == hash_of_text(rev.spec_bytes()),
        bookmark.is_none() && !is_hash_text(rev.spec_bytes()) ==> r.is_none(),
{
    match bookmark {
        Some(target) => Some(target),
        None => NodeHash::from_hex(rev.as_bytes()),
    }
}

/// What a changeset says of itself.
#[derive(Debug, Clone, PartialEq, Eq)]
pub struct ChangesetAttrs {
    pub user: Vec<u8>,
    pub comments: Vec<u8>,
    pub files: Vec<Vec<u8>>,
    pub extra: Vec<(Vec<u8>, Vec<u8>)>,
    pub manifest: NodeHash,
}

/// How a path differs between the manifests of two changesets.
#[derive(Debug, Clone, PartialEq, Eq)]
pub enum PathChange {
    /// The path is new or has new content.
    Changed(Vec<u8>),
    /// The path is new or changed, with content that the repository has.
    ChangedReusedId(Vec<u8>),
    /// The path is gone.
    Deleted(Vec<u8>),
}

/// A path change as a mathematical value.
pub enum PathChangeView {
    Changed(Seq<u8>),
    ChangedReusedId(Seq<u8>),
    Deleted(Seq<u8>),
}

impl DeepView for PathChange {
    type V = PathChangeView;

    open spec fn deep_view(&self) -> PathChangeView {
        match self {
            PathChange::Changed(p) => PathChangeView::Changed(p@),
            PathChange::ChangedReusedId(p) => PathChangeView::ChangedReusedId(p@),
            PathChange::Deleted(p) => PathChangeView::Deleted(p@),
        }
    }
}

/// The paths that differ between two manifests: those that were modified
/// and those that were deleted.
#[derive(Debug, Clone, PartialEq, Eq)]
pub struct ManifestDiff {
    pub modified: Vec<Vec<u8>>,
    pub deleted: Vec<Vec<u8>>,
}

/// The paths among `changes` that were modified, in order.
pub open spec fn modified_paths(changes: Seq<PathChangeView>) -> Seq<Seq<u8>>
    decreases changes.len(),
{
    if changes.len() == 0 {
        Seq::empty()
    } else {
        match changes.last() {
            PathChangeView::Changed(p) => modified_paths(changes.drop_last()).push(p),
            PathChangeView::ChangedReusedId(p) => modified_paths(changes.drop_last()).push(p),
            PathChangeView::Deleted(_) => modified_paths(changes.drop_last()),
        }
    }
}

/// The paths among `changes` that were deleted, in order.
pub open spec fn deleted_paths(changes: Seq<PathChangeView>) -> Seq<Seq<u8>>
    decreases changes.len(),
{
    if changes.len() == 0 {
        Seq::empty()
    } else {
        match changes.last() {
            PathChangeView::Deleted(p) => deleted_paths(changes.drop_last()).push(p),
            _ => deleted_paths(changes.drop_last()),
        }
    }
}

/// Whether the path changes hold a modified or a deleted path.
pub open spec fn manifests_differ(changes: Seq<PathChangeView>) -> bool {
    modified_paths(changes).len() > 0 || deleted_paths(changes).len() > 0
}

/// Sorts the path changes between two manifests into the modified and the
/// deleted paths. Where there is neither, there is no difference to tell
/// of.
pub fn hg_manifest_diff(changes: &Vec<PathChange>) -> (diff: Option<ManifestDiff>)
    ensures
        !manifests_differ(changes.deep_view()) ==> diff.is_none(),
        manifests_differ(changes.deep_view()) ==> diff.is_some()
            && diff.unwrap().modified.deep_view() == modified_paths(changes.deep_view())
            && diff.unwrap().deleted.deep_view() == deleted_paths(changes.deep_view()),
{
    let mut modified: Vec<Vec<u8>> = Vec::new();
    let mut deleted: Vec<Vec<u8>> = Vec::new();
    let mut i: usize = 0;
    proof {
        assert(changes.deep_view().take(0) =~= Seq::<PathChangeView>::empty());
        assert(modified.deep_view() =~= Seq::<Seq<u8>>::empty());
        assert(deleted.deep_view() =~= Seq::<Seq<u8>>::empty());
    }
    while i < changes.len()
        invariant
            i <= changes@.len(),
            modified.deep_view() == modified_paths(changes.deep_view().take(i as int)),
            deleted.deep_view() == deleted_paths(changes.deep_view().take(i as int)),
        decreases changes@.len() - i,
    {
        let ghost upto = changes.deep_view().take(i + 1);
        let ghost was_modified = modified.deep_view();
        let ghost was_deleted = deleted.deep_view();
        proof {
            assert(upto.drop_last() =~= changes.deep_view().take(i as int));
            assert(upto.last() == changes@[i as int].deep_view());
        }
        match &changes[i] {
            PathChange::Changed(p) => {
                modified.push(copy_bytes(p));
                assert(modified.deep_view() =~~= was_modified.push(p@));
            },
            PathChange::ChangedReusedId(p) => {
                modified.push(copy_bytes(p));
                assert(modified.deep_view() =~~= was_modified.push(p@));
            },
            PathChange::Deleted(p) => {
                deleted.push(copy_bytes(p));
                assert(deleted.deep_view() =~~= was_deleted.push(p@));
            },
        }
        i += 1;
    }
    assert(changes.deep_view().take(changes@.len() as int) =~= changes.deep_view());
    if modified.len() == 0 && deleted.len() == 0 {
        None
    } else {
        Some(ManifestDiff { modified, deleted })
    }
}

/// A difference between two changesets: an attribute with its two values,
/// or the paths in which the manifests differ.
#[derive(Debug, Clone, PartialEq, Eq)]
pub enum ChangesetAttrDiff {
    User(Vec<u8>, Vec<u8>),
    Comments(Vec<u8>, Vec<u8>),
    Manifest(ManifestDiff),
    Files(Vec<Vec<u8>>, Vec<Vec<u8>>),
    Extra(Vec<(Vec<u8>, Vec<u8>)>, Vec<(Vec<u8>, Vec<u8>)>),
}

/// Which attribute a difference is about.
#[derive(Debug, Clone, Copy, PartialEq, Eq, Structural)]
pub enum DiffKind {
    User,
    Comments,
    Manifest,
    Files,
    Extra,
}

impl ChangesetAttrDiff {
    /// Which attribute the difference is about.
    pub open spec fn kind_of(self) -> DiffKind {
        match self {
            ChangesetAttrDiff::User(_, _) => DiffKind::User,
            ChangesetAttrDiff::Comments(_, _) => DiffKind::Comments,
            ChangesetAttrDiff::Manifest(_) => DiffKind::Manifest,
            ChangesetAttrDiff::Files(_, _) => DiffKind::Files,
            ChangesetAttrDiff::Extra(_, _) => DiffKind::Extra,
        }
    }

    /// Which attribute the difference is about.
    pub fn kind(&self) -> (k: DiffKind)
        ensures
            k == self.kind_of(),
    {
        match self {
            ChangesetAttrDiff::User(_, _) => DiffKind::User,
            ChangesetAttrDiff::Comments(_, _) => DiffKind::Comments,
            ChangesetAttrDiff::Manifest(_) => DiffKind::Manifest,
            ChangesetAttrDiff::Files(_, _) => DiffKind::Files,
            ChangesetAttrDiff::Extra(_, _) => DiffKind::Extra,
        }
    }
}

fn same_paths(a: &Vec<Vec<u8>>, b: &Vec<Vec<u8>>) -> (r: bool)
    ensures
        r == (a.deep_view() == b.deep_view()),
{
    if a.len() != b.len() {
        assert(a.deep_view().len() != b.deep_view().len());
        return false;
    }
    let mut i: usize = 0;
    while i < a.len()
        invariant
            i <= a@.len(),
            a@.len() == b@.len(),
            forall|j: int| 0 <= j < i ==> #[trigger] a@[j]@ == b@[j]@,
        decreases a@.len() - i,
    {
        if !same_name(&a[i], &b[i]) {
            assert(a.deep_view()[i as int] =~= a@[i as int]@);
            assert(b.deep_view()[i as int] =~= b@[i as int]@);
            return false;
        }
        i += 1;
    }
    assert(a.deep_view() =~~= b.deep_view());
    true
}

fn same_pairs(a: &Vec<(Vec<u8>, Vec<u8>)>, b: &Vec<(Vec<u8>, Vec<u8>)>) -> (r: bool)
    ensures
        r == (a.deep_view() == b.deep_view()),
{
    if a.len() != b.len() {
        assert(a.deep_view().len() != b.deep_view().len());
        return false;
    }
    let mut i: usize = 0;
    while i < a.len()
        invariant
            i <= a@.len(),
            a@.len() == b@.len(),
            forall|j: int|
                0 <= j < i ==> (#[trigger] a@[j]).0@ == b@[j].0@ && a@[j].1@ == b@[j].1@,
        decreases a@.len() - i,
    {
        if !same_name(&a[i].0, &b[i].0) || !same_name(&a[i].1, &b[i].1) {
            assert(a.deep_view()[i as int].0 =~= a@[i as int].0@);
            assert(b.deep_view()[i as int].0 =~= b@[i as int].0@);
            assert(a.deep_view()[i as int].1 =~= a@[i as int].1@);
            assert(b.deep_view()[i as int].1 =~= b@[i as int].1@);
            return false;
        }
        i += 1;
    }
    assert(a.deep_view() =~~= b.deep_view());
    true
}

/// The attributes in which two changesets differ, in the order in which
/// they are told: the user, the comments, the files, the extras, and last
/// the manifest.
pub open spec fn differing(
    left: ChangesetAttrs,
    right: ChangesetAttrs,
    changes: Seq<PathChangeView>,
) -> Seq<DiffKind> {
    (if left.user@ != right.user@ {
        seq![DiffKind::User]
    } else {
        Seq::empty()
    }) + (if left.comments@ != right.comments@ {
        seq![DiffKind::Comments]
    } else {
        Seq::empty()
    }) + (if left.files.deep_view() != right.files.deep_view() {
        seq![DiffKind::Files]
    } else {
        Seq::empty()
    }) + (if left.extra.deep_view() != right.extra.deep_view() {
        seq![DiffKind::Extra]
    } else {
        Seq::empty()
    }) + (if manifests_differ(changes) {
        seq![DiffKind::Manifest]
    } else {
        Seq::empty()
    })
}

fn copy_paths(paths: &Vec<Vec<u8>>) -> (out: Vec<Vec<u8>>)
    ensures
        out.deep_view() == paths.deep_view(),
{
    let mut out: Vec<Vec<u8>> = Vec::with_capacity(paths.len());
    let mut i: usize = 0;
    while i < paths.len()
        invariant
            i <= paths@.len(),
            out@.len() == i,
            forall|j: int| 0 <= j < i ==> (#[trigger] out@[j])@ == paths@[j]@,
        decreases paths@.len() - i,
    {
        out.push(copy_bytes(&paths[i]));
        i += 1;
    }
    assert(out.deep_view() =~~= paths.deep_view());
    out
}

fn copy_pairs(pairs: &Vec<(Vec<u8>, Vec<u8>)>) -> (out: Vec<(Vec<u8>, Vec<u8>)>)
    ensures
        out.deep_view() == pairs.deep_view(),
{
    let mut out: Vec<(Vec<u8>, Vec<u8>)> = Vec::with_capacity(pairs.len());
    let mut i: usize = 0;
    while i < pairs.len()
        invariant
            i <= pairs@.len(),
            out@.len() == i,
            forall|j: int|
                0 <= j < i ==> (#[trigger] out@[j]).0@ == pairs@[j].0@ && out@[j].1@
                    == pairs@[j].1@,
        decreases pairs@.len() - i,
    {
        out.push((copy_bytes(&pairs[i].0), copy_bytes(&pairs[i].1)));
        i += 1;
    }
    assert(out.deep_view() =~~= pairs.deep_view());
    out
}

/// Tells in what two changesets differ. `changes` are the path changes
/// between their manifests. Each difference carries the value of the left
/// and of the right changeset.
pub fn hg_changeset_diff(
    left: &ChangesetAttrs,
    right: &ChangesetAttrs,
    changes: &Vec<PathChange>,
) -> (diff: Vec<ChangesetAttrDiff>)
    ensures
        diff@.len() == differing(*left, *right, changes.deep_view()).len(),
        forall|i: int|
            0 <= i < diff@.len() ==> (#[trigger] diff@[i]).kind_of() == differing(
                *left,
                *right,
                changes.deep_view(),
            )[i],
        forall|i: int|
            0 <= i < diff@.len() ==> match #[trigger] diff@[i] {
                ChangesetAttrDiff::User(l, r) => l@ == left.user@ && r@ == right.user@,
                ChangesetAttrDiff::Comments(l, r) => l@ == left.comments@ && r@ == right.comments@,
                ChangesetAttrDiff::Files(l, r) => l.deep_view() == left.files.deep_view()
                    && r.deep_view() == right.files.deep_view(),
                ChangesetAttrDiff::Extra(l, r) => l.deep_view() == left.extra.deep_view()
                    && r.deep_view() == right.extra.deep_view(),
                ChangesetAttrDiff::Manifest(m) => m.modified.deep_view() == modified_paths(
                    changes.deep_view(),
                ) && m.deleted.deep_view() == deleted_paths(changes.deep_view()),
            },
{
    let mut diff: Vec<ChangesetAttrDiff> = Vec::new();
    if !same_name(&left.user, &right.user) {
        diff.push(ChangesetAttrDiff::User(copy_bytes(&left.user), copy_bytes(&right.user)));
    }
    if !same_name(&left.comments, &right.comments) {
        diff.push(
            ChangesetAttrDiff::Comments(copy_bytes(&left.comments), copy_bytes(&right.comments)),
        );
    }
    if !same_paths(&left.files, &right.files) {
        diff.push(ChangesetAttrDiff::Files(copy_paths(&left.files), copy_paths(&right.files)));
    }
    if !same_pairs(&left.extra, &right.extra) {
        diff.push(ChangesetAttrDiff::Extra(copy_pairs(&left.extra), copy_pairs(&right.extra)));
    }
    match hg_manifest_diff(changes) {
        Some(m) => {
            diff.push(ChangesetAttrDiff::Manifest(m));
        },
        None => {},
    }
    diff
}

} // verus!
