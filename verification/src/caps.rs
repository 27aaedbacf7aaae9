//! Capability negotiation: what the `hello` command advertises.
//!
//! The wire capabilities are a fixed list of words. One of them, `bundle2`,
//! carries a table of bundle features: each feature is a name with optional
//! values, written as `name` or `name=value,value`, the features joined by
//! newlines, and the whole percent-encoded.
//!
//! The table holds no `listkeys` feature, on purpose. A client that sees
//! none asks for the bookmarks before it looks for the heads it lacks, so a
//! bookmark that moves in between cannot point at a changeset that the pull
//! does not bring. The `listkeys` command itself stays available.

use vstd::prelude::*;
use vstd::string::{StringExecFns, StringSliceAdditionalSpecFns};

verus! {

/// `String::push` of std: appends one character to the string.
#[verifier::external_body]
fn push_char(s: &mut String, c: char)
    ensures
        final(s)@ == old(s)@.push(c),
{
    s.push(c)
}

/// The parts joined into one text, with `sep` between neighbours.
pub open spec fn joined(parts: Seq<Seq<char>>, sep: Seq<char>) -> Seq<char>
    decreases parts.len(),
{
    if parts.len() == 0 {
        Seq::empty()
    } else if parts.len() == 1 {
        parts[0]
    } else {
        joined(parts.drop_last(), sep) + sep + parts.last()
    }
}

/// Joins the parts into one string, with `sep` between neighbours.
pub fn join(parts: &Vec<String>, sep: &str) -> (out: String)
    ensures
        out@ == joined(parts.deep_view(), sep@),
{
    let mut out = String::new();
    let mut i: usize = 0;
    while i < parts.len()
        invariant
            i <= parts.len(),
            out@ == joined(parts.deep_view().take(i as int), sep@),
        decreases parts.len() - i,
    {
        proof {
            let before = parts.deep_view().take(i as int);
            let after = parts.deep_view().take(i + 1);
            assert(after.drop_last() =~= before);
            assert(after.last() == parts@[i as int]@);
            if i == 0 {
                assert(Seq::<char>::empty() + parts@[0]@ =~= parts@[0]@);
            }
        }
        if i > 0 {
            out.append(sep);
        }
        out.append(parts[i].as_str());
        i += 1;
    }
    assert(parts.deep_view().take(parts.len() as int) =~= parts.deep_view());
    out
}

/// A bundle feature: a name and the values it is advertised with.
pub struct Capability {
    pub name: String,
    pub values: Vec<String>,
}

impl DeepView for Capability {
    type V = (Seq<char>, Seq<Seq<char>>);

    open spec fn deep_view(&self) -> (Seq<char>, Seq<Seq<char>>) {
        (self.name@, self.values.deep_view())
    }
}

/// How one feature is written: its name, and where it has values an equals
/// sign and the values joined by commas.
pub open spec fn capability_text(cap: (Seq<char>, Seq<Seq<char>>)) -> Seq<char> {
    if cap.1.len() > 0 {
        cap.0 + seq!['='] + joined(cap.1, seq![','])
    } else {
        cap.0
    }
}

/// How a table of features is written: one feature per line.
pub open spec fn capabilities_text(caps: Seq<(Seq<char>, Seq<Seq<char>>)>) -> Seq<char> {
    joined(caps.map_values(|cap: (Seq<char>, Seq<Seq<char>>)| capability_text(cap)), seq!['\n'])
}

/// Writes a table of features as text, before any percent-encoding.
pub fn encode_capabilities(caps: &Vec<Capability>) -> (out: String)
    ensures
        out@ == capabilities_text(caps.deep_view()),
{
    let mut lines: Vec<String> = Vec::new();
    let mut i: usize = 0;
    proof {
        reveal_strlit("=");
        reveal_strlit(",");
        reveal_strlit("\n");
        assert("="@ =~= seq!['=']);
        assert(","@ =~= seq![',']);
        assert("\n"@ =~= seq!['\n']);
    }
    while i < caps.len()
        invariant
            i <= caps.len(),
            "="@ == seq!['='],
            ","@ == seq![','],
            lines.deep_view() == caps.deep_view().take(i as int).map_values(
                |cap: (Seq<char>, Seq<Seq<char>>)| capability_text(cap),
            ),
        decreases caps.len() - i,
    {
        let cap = &caps[i];
        let mut line = cap.name.clone();
        if cap.values.len() > 0 {
            line.append("=");
            let values = join(&cap.values, ",");
            line.append(values.as_str());
        }
        proof {
            assert(cap.deep_view() == caps.deep_view()[i as int]);
            assert(line@ == capability_text(cap.deep_view()));
        }
        let ghost before = lines.deep_view();
        lines.push(line);
        proof {
            let f = |cap: (Seq<char>, Seq<Seq<char>>)| capability_text(cap);
            assert(lines.deep_view() =~= before.push(line@));
            assert(caps.deep_view().take(i + 1) =~= caps.deep_view().take(i as int).push(
                caps.deep_view()[i as int],
            ));
            assert(caps.deep_view().take(i + 1).map_values(f) =~= caps.deep_view().take(
                i as int,
            ).map_values(f).push(f(caps.deep_view()[i as int])));
        }
        i += 1;
    }
    assert(caps.deep_view().take(caps.len() as int) =~= caps.deep_view());
    join(&lines, "\n")
}

/// Whether a byte stands for itself in percent-encoded text: an ASCII letter
/// or digit, or one of `-`, `_`, `.`, `~`.
pub open spec fn is_unreserved(b: u8) -> bool {
    ||| 48 <= b <= 57
    ||| 65 <= b <= 90
    ||| 97 <= b <= 122
    ||| b == 45
    ||| b == 95
    ||| b == 46
    ||| b == 126
}

/// The upper-case hex digit of a value below 16.
pub open spec fn upper_hex_digit(n: u8) -> char {
    if n < 10 {
        (48 + n) as char
    } else {
        (55 + n) as char
    }
}

/// How one byte is written in percent-encoded text: as itself, or as a
/// percent sign and its two upper-case hex digits.
pub open spec fn percent_encoded_byte(b: u8) -> Seq<char> {
    if is_unreserved(b) {
        seq![b as char]
    } else {
        seq!['%', upper_hex_digit(b / 16), upper_hex_digit(b % 16)]
    }
}

/// The percent-encoded text of a byte sequence.
pub open spec fn percent_encoded(bytes: Seq<u8>) -> Seq<char>
    decreases bytes.len(),
{
    if bytes.len() == 0 {
        Seq::empty()
    } else {
        percent_encoded(bytes.drop_last()) + percent_encoded_byte(bytes.last())
    }
}

fn upper_hex_digit_of(n: u8) -> (c: char)
    requires
        n < 16,
    ensures
        c == upper_hex_digit(n),
{
    if n < 10 {
        (48 + n) as char
    } else {
        (55 + n) as char
    }
}

fn is_unreserved_byte(b: u8) -> (r: bool)
    ensures
        r == is_unreserved(b),
{
    (48 <= b && b <= 57) || (65 <= b && b <= 90) || (97 <= b && b <= 122) || b == 45 || b == 95
        || b == 46 || b == 126
}

/// Percent-encodes the UTF-8 bytes of a text: every byte but the
/// unreserved ones becomes a percent sign and two upper-case hex digits.
pub fn percent_encode(input: &str) -> (out: String)
    ensures
        out@ == percent_encoded(input.spec_bytes()),
{
    let bytes = input.as_bytes();
    let mut out = String::new();
    let mut i: usize = 0;
    while i < bytes.len()
        invariant
            i <= bytes@.len(),
            out@ == percent_encoded(bytes@.take(i as int)),
        decreases bytes@.len() - i,
    {
        let b: u8 = bytes[i];
        proof {
            assert(bytes@.take(i + 1).drop_last() =~= bytes@.take(i as int));
            assert(bytes@.take(i + 1).last() == b);
        }
        let ghost before = out@;
        if is_unreserved_byte(b) {
            push_char(&mut out, b as char);
            assert(out@ =~= before + percent_encoded_byte(b));
        } else {
            push_char(&mut out, '%');
            push_char(&mut out, upper_hex_digit_of(b / 16));
            push_char(&mut out, upper_hex_digit_of(b % 16));
            assert(out@ =~= before + percent_encoded_byte(b));
        }
        i += 1;
    }
    assert(bytes@.take(bytes@.len() as int) =~= bytes@);
    out
}

/// The wire capabilities that every session advertises, in order.
pub open spec fn wire_capabilities() -> Seq<Seq<char>> {
    seq![
        "lookup"@,
        "known"@,
        "getbundle"@,
        "unbundle=HG10GZ,HG10BZ,HG10UN"@,
        "gettreepack"@,
        "remotefilelog"@,
        "pushkey"@,
        "stream-preferred"@,
        "stream_option"@,
        "streamreqs=generaldelta,lz4revlog,revlogv1"@,
    ]
}

/// The wire capabilities that every session advertises.
pub fn wireprotocaps() -> (caps: Vec<String>)
    ensures
        caps.deep_view() == wire_capabilities(),
{
    let mut caps: Vec<String> = Vec::new();
    caps.push("lookup".to_owned());
    caps.push("known".to_owned());
    caps.push("getbundle".to_owned());
    caps.push("unbundle=HG10GZ,HG10BZ,HG10UN".to_owned());
    caps.push("gettreepack".to_owned());
    caps.push("remotefilelog".to_owned());
    caps.push("pushkey".to_owned());
    caps.push("stream-preferred".to_owned());
    caps.push("stream_option".to_owned());
    caps.push("streamreqs=generaldelta,lz4revlog,revlogv1".to_owned());
    assert(caps.deep_view() =~= wire_capabilities());
    caps
}

/// The table of bundle features that the `bundle2` capability carries.
pub open spec fn bundle2_table() -> Seq<(Seq<char>, Seq<Seq<char>>)> {
    seq![
        ("HG20"@, Seq::<Seq<char>>::empty()),
        ("changegroup"@, seq!["02"@]),
        ("b2x:infinitepush"@, Seq::<Seq<char>>::empty()),
        ("b2x:infinitepushscratchbookmarks"@, Seq::<Seq<char>>::empty()),
        ("pushkey"@, Seq::<Seq<char>>::empty()),
        ("treemanifestserver"@, seq!["True"@]),
        ("b2x:rebase"@, Seq::<Seq<char>>::empty()),
        ("b2x:rebasepackpart"@, Seq::<Seq<char>>::empty()),
    ]
}

fn feature(name: &str) -> (cap: Capability)
    ensures
        cap.deep_view() == (name@, Seq::<Seq<char>>::empty()),
{
    let cap = Capability { name: name.to_owned(), values: Vec::new() };
    assert(cap.values.deep_view() =~= Seq::<Seq<char>>::empty());
    cap
}

fn feature_with(name: &str, value: &str) -> (cap: Capability)
    ensures
        cap.deep_view() == (name@, seq![value@]),
{
    let mut values: Vec<String> = Vec::new();
    values.push(value.to_owned());
    let cap = Capability { name: name.to_owned(), values };
    assert(cap.values.deep_view() =~= seq![value@]);
    cap
}

/// The table of bundle features that the `bundle2` capability carries.
pub fn bundle2_capabilities() -> (caps: Vec<Capability>)
    ensures
        caps.deep_view() == bundle2_table(),
{
    let mut caps: Vec<Capability> = Vec::new();
    caps.push(feature("HG20"));
    caps.push(feature_with("changegroup", "02"));
    caps.push(feature("b2x:infinitepush"));
    caps.push(feature("b2x:infinitepushscratchbookmarks"));
    caps.push(feature("pushkey"));
    caps.push(feature_with("treemanifestserver", "True"));
    caps.push(feature("b2x:rebase"));
    caps.push(feature("b2x:rebasepackpart"));
    assert(caps.deep_view() =~= bundle2_table());
    caps
}

/// The value of the `bundle2` capability: the feature table as text,
/// percent-encoded.
pub fn bundle2caps() -> (out: String)
    ensures
        out@ == percent_encoded(vstd::utf8::encode_utf8(capabilities_text(bundle2_table()))),
{
    let caps = bundle2_capabilities();
    let text = encode_capabilities(&caps);
    percent_encode(text.as_str())
}

/// What `hello` answers: the single entry `capabilities`, whose value is the
/// wire capabilities followed by the `bundle2` capability.
pub open spec fn hello_answer() -> Seq<(Seq<char>, Seq<Seq<char>>)> {
    seq![
        (
            "capabilities"@,
            wire_capabilities().push(
                "bundle2="@ + percent_encoded(
                    vstd::utf8::encode_utf8(capabilities_text(bundle2_table())),
                ),
            ),
        ),
    ]
}

/// The answer of the `hello` command: a map with the single key
/// `capabilities`, given as its list of entries.
pub fn hello() -> (answer: Vec<(String, Vec<String>)>)
    ensures
        answer.deep_view() == hello_answer(),
{
    let mut caps = wireprotocaps();
    let mut bundle2 = "bundle2=".to_owned();
    let encoded = bundle2caps();
    bundle2.append(encoded.as_str());
    let ghost before = caps.deep_view();
    caps.push(bundle2);
    assert(caps.deep_view() =~= before.push(bundle2@));
    let mut answer: Vec<(String, Vec<String>)> = Vec::new();
    answer.push(("capabilities".to_owned(), caps));
    assert(answer.deep_view() =~= hello_answer());
    answer
}

/// No feature of the bundle table is named `listkeys`.
pub proof fn lemma_bundle2_table_has_no_listkeys()
    ensures
        forall|i: int|
            0 <= i < bundle2_table().len() ==> (#[trigger] bundle2_table()[i]).0 != "listkeys"@,
{
    reveal_strlit("listkeys");
    reveal_strlit("HG20");
    reveal_strlit("changegroup");
    reveal_strlit("b2x:infinitepush");
    reveal_strlit("b2x:infinitepushscratchbookmarks");
    reveal_strlit("pushkey");
    reveal_strlit("treemanifestserver");
    reveal_strlit("b2x:rebase");
    reveal_strlit("b2x:rebasepackpart");
    assert("listkeys"@.len() == 8);
    assert("HG20"@.len() == 4);
    assert("changegroup"@.len() == 11);
    assert("b2x:infinitepush"@.len() == 16);
    assert("b2x:infinitepushscratchbookmarks"@.len() == 32);
    assert("pushkey"@.len() == 7);
    assert("treemanifestserver"@.len() == 18);
    assert("b2x:rebase"@.len() == 10);
    assert("b2x:rebasepackpart"@.len() == 18);
}

} // verus!
