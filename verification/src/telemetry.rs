//! The commands of the wire protocol and what is recorded of each call.
//!
//! Every call of a command leaves two records: one when it starts, with the
//! command's name and a summary of its arguments, and one when it ends,
//! with the outcome and the time it took. Three commands also feed a
//! latency histogram.

use vstd::prelude::*;
use itertools::Itertools;
use crate::caps::joined;
use crate::hash::{hex_of, NodeHash};
use crate::manifest::copy_bytes;
use crate::sorting::{is_sorted, sort_texts};
use vstd::string::StringExecFns;

verus! {

/// A command of the wire protocol.
#[derive(Debug, Clone, Copy, PartialEq, Eq, Structural, Hash)]
pub enum Command {
    Hello,
    Unbundle,
    Heads,
    Lookup,
    Listkeys,
    Known,
    Between,
    Getbundle,
    Gettreepack,
    Getfiles,
}

impl Command {
    /// The name of the command on the wire.
    pub open spec fn wire_name(self) -> Seq<char> {
        match self {
            Command::Hello => "hello"@,
            Command::Unbundle => "unbundle"@,
            Command::Heads => "heads"@,
            Command::Lookup => "lookup"@,
            Command::Listkeys => "listkeys"@,
            Command::Known => "known"@,
            Command::Between => "between"@,
            Command::Getbundle => "getbundle"@,
            Command::Gettreepack => "gettreepack"@,
            Command::Getfiles => "getfiles"@,
        }
    }

    /// The histogram that the command's latency goes to, if it has one.
    pub open spec fn histogram_name(self) -> Option<Seq<char>> {
        match self {
            Command::Getbundle => Some("getbundle_ms"@),
            Command::Gettreepack => Some("gettreepack_ms"@),
            Command::Getfiles => Some("getfiles_ms"@),
            _ => None,
        }
    }

    /// The name of the command on the wire.
    pub fn name(&self) -> (name: &'static str)
        ensures
            name@ == self.wire_name(),
    {
        match self {
            Command::Hello => "hello",
            Command::Unbundle => "unbundle",
            Command::Heads => "heads",
            Command::Lookup => "lookup",
            Command::Listkeys => "listkeys",
            Command::Known => "known",
            Command::Between => "between",
            Command::Getbundle => "getbundle",
            Command::Gettreepack => "gettreepack",
            Command::Getfiles => "getfiles",
        }
    }

    /// The histogram that the command's latency goes to, if it has one.
    pub fn histogram(&self) -> (name: Option<&'static str>)
        ensures
            match self.histogram_name() {
                Some(n) => name.is_some() && name.unwrap()@ == n,
                None => name.is_none(),
            },
    {
        match self {
            Command::Getbundle => Some("getbundle_ms"),
            Command::Gettreepack => Some("gettreepack_ms"),
            Command::Getfiles => Some("getfiles_ms"),
            _ => None,
        }
    }

    /// All commands.
    pub fn all() -> (commands: Vec<Command>)
        ensures
            forall|c: Command| commands@.contains(c),
    {
        let mut commands: Vec<Command> = Vec::new();
        commands.push(Command::Hello);
        commands.push(Command::Unbundle);
        commands.push(Command::Heads);
        commands.push(Command::Lookup);
        commands.push(Command::Listkeys);
        commands.push(Command::Known);
        commands.push(Command::Between);
        commands.push(Command::Getbundle);
        commands.push(Command::Gettreepack);
        commands.push(Command::Getfiles);
        assert forall|c: Command| commands@.contains(c) by {
            let k: int = match c {
                Command::Hello => 0,
                Command::Unbundle => 1,
                Command::Heads => 2,
                Command::Lookup => 3,
                Command::Listkeys => 4,
                Command::Known => 5,
                Command::Between => 6,
                Command::Getbundle => 7,
                Command::Gettreepack => 8,
                Command::Getfiles => 9,
            };
            assert(commands@[k] == c);
        }
        commands
    }

    /// The command with the given name on the wire, if there is one.
    pub fn from_name(name: &str) -> (command: Option<Command>)
        ensures
            match command {
                Some(c) => c.wire_name() == name@,
                None => forall|c: Command| c.wire_name() != name@,
            },
    {
        let commands = Command::all();
        let wanted = name.to_owned();
        let mut i: usize = 0;
        while i < commands.len()
            invariant
                i <= commands@.len(),
                wanted@ == name@,
                forall|j: int| 0 <= j < i ==> (#[trigger] commands@[j]).wire_name() != name@,
            decreases commands@.len() - i,
        {
            let c = commands[i];
            if c.name().to_owned() == wanted {
                return Some(c);
            }
            i += 1;
        }
        assert forall|c: Command| c.wire_name() != name@ by {
            assert(commands@.contains(c));
            let k = choose|k: int| 0 <= k < commands@.len() && commands@[k] == c;
            assert(commands@[k].wire_name() != name@);
        }
        None
    }
}

/// How a call ended.
#[derive(Debug, Clone, Copy, PartialEq, Eq, Structural)]
pub struct Outcome {
    pub success: bool,
    pub duration_ms: u64,
}

/// A record of a call: the command, the summary of its arguments if one was
/// made, the message, and the outcome once the call has ended.
#[derive(Debug)]
pub struct TelemetryRecord {
    pub command: Command,
    pub args: Option<String>,
    pub message: String,
    pub outcome: Option<Outcome>,
}

/// A value for a histogram.
#[derive(Debug)]
pub struct HistogramSample {
    pub histogram: String,
    pub value: i64,
}

/// The record of the start of a call.
pub fn start_record(command: Command, args: Option<String>) -> (record: TelemetryRecord)
    ensures
        record.command == command,
        record.args == args,
        record.message@ == "Start processing"@,
        record.outcome.is_none(),
{
    TelemetryRecord { command, args, message: "Start processing".to_owned(), outcome: None }
}

/// The record of the end of a call: that of its start with the outcome
/// added.
pub fn finish_record(start: TelemetryRecord, success: bool, duration_ms: u64) -> (record:
    TelemetryRecord)
    ensures
        record.command == start.command,
        record.args == start.args,
        record.message@ == "Command processed"@,
        record.outcome == Some(Outcome { success, duration_ms }),
{
    TelemetryRecord {
        command: start.command,
        args: start.args,
        message: "Command processed".to_owned(),
        outcome: Some(Outcome { success, duration_ms }),
    }
}

/// The histogram value of a call that took `duration_ms`: the duration,
/// capped where it does not fit the histogram's values. A command without a
/// histogram gives none.
pub fn latency_sample(command: Command, duration_ms: u64) -> (sample: Option<HistogramSample>)
    ensures
        match command.histogram_name() {
            None => sample.is_none(),
            Some(n) => sample.is_some() && sample.unwrap().histogram@ == n && sample.unwrap().value
                == (if duration_ms <= i64::MAX as u64 {
                duration_ms as int
            } else {
                i64::MAX as int
            }),
        },
{
    match command.histogram() {
        None => None,
        Some(name) => {
            let value: i64 = if duration_ms <= i64::MAX as u64 {
                duration_ms as i64
            } else {
                i64::MAX
            };
            Some(HistogramSample { histogram: name.to_owned(), value })
        },
    }
}

/// The text that `String::from_utf8_lossy` of std gives for a byte string.
pub uninterp spec fn lossy_text(bytes: Seq<u8>) -> Seq<char>;

/// Whether all bytes are ASCII.
pub open spec fn all_ascii(bytes: Seq<u8>) -> bool {
    forall|i: int| 0 <= i < bytes.len() ==> #[trigger] bytes[i] < 128
}

/// ASCII bytes as characters.
pub open spec fn ascii_text(bytes: Seq<u8>) -> Seq<char> {
    Seq::new(bytes.len(), |i: int| bytes[i] as char)
}

/// A byte string read as text: ASCII bytes as the characters they are, and
/// any other bytes as `String::from_utf8_lossy` of std reads them.
pub open spec fn read_text(bytes: Seq<u8>) -> Seq<char> {
    if all_ascii(bytes) {
        ascii_text(bytes)
    } else {
        lossy_text(bytes)
    }
}

/// `String::from_utf8_lossy` of std: the bytes read as UTF-8, with the
/// replacement character wherever they are no valid UTF-8. ASCII bytes are
/// valid UTF-8 and come out as they are.
#[verifier::external_body]
fn text_of(bytes: &[u8]) -> (text: String)
    ensures
        text@ == lossy_text(bytes@),
        all_ascii(bytes@) ==> text@ == ascii_text(bytes@),
{
    String::from_utf8_lossy(bytes).into_owned()
}

/// `Itertools::join` of the `itertools` crate on strings: the strings in
/// order, with `sep` between neighbours.
#[verifier::external_body]
fn join_texts(parts: &Vec<String>, sep: &str) -> (out: String)
    ensures
        out@ == joined(parts.deep_view(), sep@),
{
    parts.iter().join(sep)
}

/// The texts of byte strings.
pub open spec fn read_texts(texts: Seq<Seq<u8>>) -> Seq<Seq<char>> {
    Seq::new(texts.len(), |i: int| read_text(texts[i]))
}

/// Whether `summary` lists the byte strings `entries`: sorted by their
/// bytes, each read as text, with a space between neighbours.
pub open spec fn is_sorted_listing(summary: Seq<char>, entries: Seq<Seq<u8>>) -> bool {
    exists|sorted: Seq<Seq<u8>>|
        #![trigger is_sorted(sorted)]
        is_sorted(sorted) && sorted.to_multiset() == entries.to_multiset() && summary == joined(
            read_texts(sorted),
            seq![' '],
        )
}

/// Lists byte strings for a summary: sorted by their bytes, each read as
/// UTF-8, with a space between neighbours.
pub fn format_utf8_bytes_list(entries: Vec<Vec<u8>>) -> (summary: String)
    ensures
        is_sorted_listing(summary@, entries.deep_view()),
{
    let sorted = sort_texts(&entries);
    let mut texts: Vec<String> = Vec::new();
    let mut i: usize = 0;
    while i < sorted.len()
        invariant
            i <= sorted@.len(),
            texts@.len() == i,
            forall|j: int| 0 <= j < i ==> (#[trigger] texts@[j])@ == read_text(sorted@[j]@),
        decreases sorted@.len() - i,
    {
        texts.push(text_of(sorted[i].as_slice()));
        i += 1;
    }
    proof {
        reveal_strlit(" ");
        assert(" "@ =~= seq![' ']);
        assert forall|j: int| 0 <= j < sorted@.len() implies #[trigger] sorted.deep_view()[j]
            == sorted@[j]@ by {
            assert(sorted.deep_view()[j] =~= sorted@[j]@);
        }
        assert(texts.deep_view() =~= read_texts(sorted.deep_view()));
        assert(is_sorted(sorted.deep_view()));
    }
    join_texts(&texts, " ")
}

/// The hex texts of hashes.
pub open spec fn hex_texts(nodes: Seq<NodeHash>) -> Seq<Seq<u8>> {
    Seq::new(nodes.len(), |i: int| hex_of(nodes[i]@))
}

/// Lists hashes for a summary: their hex texts, sorted, with a space
/// between neighbours.
pub fn format_nodes_list(nodes: Vec<NodeHash>) -> (summary: String)
    ensures
        is_sorted_listing(summary@, hex_texts(nodes@)),
{
    let mut texts: Vec<Vec<u8>> = Vec::new();
    let mut i: usize = 0;
    while i < nodes.len()
        invariant
            i <= nodes@.len(),
            texts@.len() == i,
            forall|j: int| 0 <= j < i ==> (#[trigger] texts@[j])@ == hex_of(nodes@[j]@),
        decreases nodes@.len() - i,
    {
        texts.push(nodes[i].to_hex());
        i += 1;
    }
    assert(texts.deep_view() =~~= hex_texts(nodes@));
    format_utf8_bytes_list(texts)
}

/// The summary of the arguments of a tree-fetch, made of the texts of its
/// four arguments: each under its name, with commas between them.
pub open spec fn treepack_summary_text(
    rootdir: Seq<char>,
    mfnodes: Seq<char>,
    basemfnodes: Seq<char>,
    directories: Seq<char>,
) -> Seq<char> {
    "rootdir: "@ + rootdir + ", mfnodes: "@ + mfnodes + ", basemfnodes: "@ + basemfnodes
        + ", directories: "@ + directories
}

/// Puts the summary of the arguments of a tree-fetch together from the
/// texts of its four arguments.
pub fn join_treepack_summary(rootdir: &str, mfnodes: &str, basemfnodes: &str, directories: &str) -> (summary:
    String)
    ensures
        summary@ == treepack_summary_text(rootdir@, mfnodes@, basemfnodes@, directories@),
{
    let mut summary = "rootdir: ".to_owned();
    summary.append(rootdir);
    summary.append(", mfnodes: ");
    summary.append(mfnodes);
    summary.append(", basemfnodes: ");
    summary.append(basemfnodes);
    summary.append(", directories: ");
    summary.append(directories);
    summary
}

/// Whether `summary` is the summary of the arguments of a tree-fetch: the
/// root directory read as UTF-8, and the wanted manifests, the base
/// manifests and the directories as sorted lists.
pub open spec fn is_gettreepack_summary(
    summary: Seq<char>,
    rootdir: Seq<u8>,
    mfnodes: Seq<NodeHash>,
    basemfnodes: Seq<NodeHash>,
    directories: Seq<Seq<u8>>,
) -> bool {
    exists|wanted: Seq<char>, base: Seq<char>, dirs: Seq<char>|
        #![trigger is_sorted_listing(wanted, hex_texts(mfnodes)), is_sorted_listing(base, hex_texts(basemfnodes)), is_sorted_listing(dirs, directories)]
        is_sorted_listing(wanted, hex_texts(mfnodes)) && is_sorted_listing(
            base,
            hex_texts(basemfnodes),
        ) && is_sorted_listing(dirs, directories) && summary == treepack_summary_text(
            read_text(rootdir),
            wanted,
            base,
            dirs,
        )
}

fn copy_hashes(nodes: &Vec<NodeHash>) -> (out: Vec<NodeHash>)
    ensures
        out@ == nodes@,
{
    let mut out: Vec<NodeHash> = Vec::with_capacity(nodes.len());
    let mut i: usize = 0;
    while i < nodes.len()
        invariant
            i <= nodes@.len(),
            out@ == nodes@.take(i as int),
        decreases nodes@.len() - i,
    {
        out.push(nodes[i]);
        assert(nodes@.take(i + 1) =~= nodes@.take(i as int).push(nodes@[i as int]));
        i += 1;
    }
    assert(nodes@.take(nodes@.len() as int) =~= nodes@);
    out
}

fn copy_texts(texts: &Vec<Vec<u8>>) -> (out: Vec<Vec<u8>>)
    ensures
        out.deep_view() == texts.deep_view(),
{
    let mut out: Vec<Vec<u8>> = Vec::with_capacity(texts.len());
    let mut i: usize = 0;
    while i < texts.len()
        invariant
            i <= texts@.len(),
            out@.len() == i,
            forall|j: int| 0 <= j < i ==> (#[trigger] out@[j])@ == texts@[j]@,
        decreases texts@.len() - i,
    {
        out.push(copy_bytes(&texts[i]));
        i += 1;
    }
    assert(out.deep_view() =~~= texts.deep_view());
    out
}

/// The summary of the arguments of a tree-fetch.
pub fn gettreepack_summary(
    rootdir: &Vec<u8>,
    mfnodes: &Vec<NodeHash>,
    basemfnodes: &Vec<NodeHash>,
    directories: &Vec<Vec<u8>>,
) -> (summary: String)
    ensures
        is_gettreepack_summary(
            summary@,
            rootdir@,
            mfnodes@,
            basemfnodes@,
            directories.deep_view(),
        ),
{
    let wanted = format_nodes_list(copy_hashes(mfnodes));
    let base = format_nodes_list(copy_hashes(basemfnodes));
    let dirs = format_utf8_bytes_list(copy_texts(directories));
    let root = text_of(rootdir.as_slice());
    proof {
        assert(is_sorted_listing(wanted@, hex_texts(mfnodes@)));
        assert(is_sorted_listing(base@, hex_texts(basemfnodes@)));
        assert(is_sorted_listing(dirs@, directories.deep_view()));
    }
    join_treepack_summary(root.as_str(), wanted.as_str(), base.as_str(), dirs.as_str())
}

/// The summary of one file request, made of the texts of the node and of
/// the path.
pub open spec fn file_summary_text(node: Seq<char>, path: Seq<char>) -> Seq<char> {
    "node: "@ + node + ", path: "@ + path
}

/// Puts the summary of one file request together from the texts of the
/// node and of the path.
pub fn join_file_summary(node: &str, path: &str) -> (summary: String)
    ensures
        summary@ == file_summary_text(node@, path@),
{
    let mut summary = "node: ".to_owned();
    summary.append(node);
    summary.append(", path: ");
    summary.append(path);
    summary
}

/// The summary of one file request: the node's hex text, and the path read
/// as UTF-8.
pub open spec fn getfiles_summary_of(node: NodeHash, path: Seq<u8>) -> Seq<char> {
    file_summary_text(ascii_text(hex_of(node@)), read_text(path))
}

/// The summary of one file request of `getfiles`.
pub fn getfiles_summary(node: NodeHash, path: &Vec<u8>) -> (summary: String)
    ensures
        summary@ == getfiles_summary_of(node, path@),
{
    let hex = node.to_hex();
    proof {
        assert forall|i: int| 0 <= i < hex@.len() implies #[trigger] hex@[i] < 128 by {
            let b = node@[i / 2];
            assert(b / 16 < 16 && b % 16 < 16);
        }
    }
    let node_text = text_of(hex.as_slice());
    let path_text = text_of(path.as_slice());
    join_file_summary(node_text.as_str(), path_text.as_str())
}

} // verus!
