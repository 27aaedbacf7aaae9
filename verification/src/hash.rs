//! Content hashes: 20 bytes, written on the wire as 40 hex digits.

use vstd::prelude::*;

verus! {

/// A content hash. Its view is the sequence of its 20 bytes.
#[derive(Debug, Clone, Copy, Hash)]
pub struct NodeHash {
    pub bytes: [u8; 20],
}

impl View for NodeHash {
    type V = Seq<u8>;

    open spec fn view(&self) -> Seq<u8> {
        self.bytes@
    }
}

/// The lower-case hex digit of a value below 16.
pub open spec fn hex_digit(n: u8) -> u8 {
    if n < 10 {
        (48 + n) as u8
    } else {
        (87 + n) as u8
    }
}

/// The value of a hex digit of either case; `None` for any other byte.
pub open spec fn hex_value(c: u8) -> Option<u8> {
    if 48 <= c <= 57 {
        Some((c - 48) as u8)
    } else if 97 <= c <= 102 {
        Some((c - 87) as u8)
    } else if 65 <= c <= 70 {
        Some((c - 55) as u8)
    } else {
        None
    }
}

/// The hex text of a byte sequence: two lower-case digits per byte, high
/// nibble first.
pub open spec fn hex_of(bytes: Seq<u8>) -> Seq<u8> {
    Seq::new(
        2 * bytes.len(),
        |i: int|
            if i % 2 == 0 {
                hex_digit(bytes[i / 2] / 16)
            } else {
                hex_digit(bytes[i / 2] % 16)
            },
    )
}

/// Whether a text is the hex form of a hash: exactly 40 hex digits.
pub open spec fn is_hash_text(text: Seq<u8>) -> bool {
    &&& text.len() == 40
    &&& forall|i: int| 0 <= i < 40 ==> (#[trigger] hex_value(text[i])).is_some()
}

/// The bytes that a hash text stands for.
pub open spec fn hash_of_text(text: Seq<u8>) -> Seq<u8> {
    Seq::new(
        20,
        |i: int| (hex_value(text[2 * i]).unwrap() * 16 + hex_value(text[2 * i + 1]).unwrap()) as u8,
    )
}

/// The null hash as a byte sequence.
pub open spec fn null_bytes() -> Seq<u8> {
    Seq::new(20, |i: int| 0u8)
}

/// The all-zero hash that stands for "no node".
pub open spec fn null_hash() -> NodeHash {
    NodeHash { bytes: vstd::array::spec_array_fill_for_copy_type::<u8, 20>(0u8) }
}

/// The null hash is the hash of 20 zero bytes.
pub proof fn lemma_null_hash_bytes()
    ensures
        null_hash()@ == null_bytes(),
{
    broadcast use vstd::array::axiom_spec_array_fill_for_copy_type;

    assert(null_hash()@ =~= null_bytes());
}

/// Two hashes with the same bytes are the same hash.
pub proof fn lemma_hash_ext(a: NodeHash, b: NodeHash)
    requires
        a@ == b@,
    ensures
        a == b,
{
    assert(a.bytes =~= b.bytes);
}

fn hex_digit_of(n: u8) -> (c: u8)
    requires
        n < 16,
    ensures
        c == hex_digit(n),
{
    if n < 10 {
        48 + n
    } else {
        87 + n
    }
}

fn hex_value_of(c: u8) -> (v: Option<u8>)
    ensures
        v == hex_value(c),
        v.is_some() ==> v.unwrap() < 16,
{
    if 48 <= c && c <= 57 {
        Some(c - 48)
    } else if 97 <= c && c <= 102 {
        Some(c - 87)
    } else if 65 <= c && c <= 70 {
        Some(c - 55)
    } else {
        None
    }
}

impl NodeHash {
    /// The all-zero hash that stands for "no node".
    pub fn null() -> (h: Self)
        ensures
            h == null_hash(),
    {
        NodeHash { bytes: [0u8; 20] }
    }

    /// Whether this is the null hash.
    pub fn is_null(&self) -> (r: bool)
        ensures
            r == (*self == null_hash()),
    {
        proof {
            lemma_null_hash_bytes();
        }
        let mut i: usize = 0;
        while i < 20
            invariant
                i <= 20,
                forall|j: int| 0 <= j < i ==> self.bytes@[j] == 0,
            decreases 20 - i,
        {
            if self.bytes[i] != 0 {
                assert(null_bytes()[i as int] == 0);
                return false;
            }
            i += 1;
        }
        proof {
            assert(self@ =~= null_bytes());
            lemma_hash_ext(*self, null_hash());
        }
        true
    }

    /// A hash from its 20 bytes; `None` for any other length.
    pub fn from_bytes(bytes: &[u8]) -> (h: Option<Self>)
        ensures
            bytes@.len() == 20 ==> h.is_some() && h.unwrap()@ == bytes@,
            bytes@.len() != 20 ==> h.is_none(),
    {
        if bytes.len() != 20 {
            return None;
        }
        let mut out = [0u8; 20];
        let mut i: usize = 0;
        while i < 20
            invariant
                i <= 20,
                bytes@.len() == 20,
                forall|j: int| 0 <= j < i ==> out@[j] == bytes@[j],
            decreases 20 - i,
        {
            out[i] = bytes[i];
            i += 1;
        }
        let h = NodeHash { bytes: out };
        assert(h@ =~= bytes@);
        Some(h)
    }

    /// The 20 bytes of the hash.
    pub fn to_bytes(&self) -> (out: Vec<u8>)
        ensures
            out@ == self@,
    {
        let mut out: Vec<u8> = Vec::with_capacity(20);
        let mut i: usize = 0;
        while i < 20
            invariant
                i <= 20,
                out@.len() == i,
                forall|j: int| 0 <= j < i ==> out@[j] == self.bytes@[j],
            decreases 20 - i,
        {
            out.push(self.bytes[i]);
            i += 1;
        }
        assert(out@ =~= self@);
        out
    }

    /// The hash as 40 lower-case hex digits.
    pub fn to_hex(&self) -> (out: Vec<u8>)
        ensures
            out@ == hex_of(self@),
    {
        let mut out: Vec<u8> = Vec::with_capacity(40);
        let mut i: usize = 0;
        while i < 20
            invariant
                i <= 20,
                out@.len() == 2 * i,
                forall|j: int| 0 <= j < 2 * i ==> out@[j] == hex_of(self@)[j],
            decreases 20 - i,
        {
            let b: u8 = self.bytes[i];
            out.push(hex_digit_of(b / 16));
            out.push(hex_digit_of(b % 16));
            i += 1;
        }
        assert(out@ =~= hex_of(self@));
        out
    }

    /// Reads a hash from its hex text: 40 hex digits of either case.
    pub fn from_hex(text: &[u8]) -> (h: Option<Self>)
        ensures
            is_hash_text(text@) ==> h.is_some() && h.unwrap()@ == hash_of_text(text@),
            !is_hash_text(text@) ==> h.is_none(),
    {
        if text.len() != 40 {
            return None;
        }
        let mut out = [0u8; 20];
        let mut i: usize = 0;
        while i < 20
            invariant
                i <= 20,
                text@.len() == 40,
                forall|j: int| 0 <= j < 2 * i ==> (#[trigger] hex_value(text@[j])).is_some(),
                forall|j: int| 0 <= j < i ==> out@[j] == hash_of_text(text@)[j],
            decreases 20 - i,
        {
            let hi = hex_value_of(text[2 * i]);
            let lo = hex_value_of(text[2 * i + 1]);
            match (hi, lo) {
                (Some(hi), Some(lo)) => {
                    out[i] = hi * 16 + lo;
                },
                _ => {
                    assert(!is_hash_text(text@)) by {
                        if is_hash_text(text@) {
                            assert(hex_value(text@[2 * i as int]).is_some());
                            assert(hex_value(text@[2 * i + 1]).is_some());
                        }
                    }
                    return None;
                },
            }
            i += 1;
        }
        let h = NodeHash { bytes: out };
        assert(h@ =~= hash_of_text(text@));
        Some(h)
    }
}

impl PartialEq for NodeHash {
    fn eq(&self, other: &NodeHash) -> (r: bool) {
        let mut i: usize = 0;
        while i < 20
            invariant
                i <= 20,
                forall|j: int| 0 <= j < i ==> self.bytes@[j] == other.bytes@[j],
            decreases 20 - i,
        {
            if self.bytes[i] != other.bytes[i] {
                return false;
            }
            i += 1;
        }
        proof {
            assert(self@ =~= other@);
            lemma_hash_ext(*self, *other);
        }
        true
    }
}

impl Eq for NodeHash {

}

impl vstd::std_specs::cmp::PartialEqSpecImpl for NodeHash {
    open spec fn obeys_eq_spec() -> bool {
        true
    }

    open spec fn eq_spec(&self, other: &NodeHash) -> bool {
        *self == *other
    }
}

/// The hex text of a hash is a hash text.
pub proof fn lemma_hex_is_hash_text(h: NodeHash)
    ensures
        is_hash_text(hex_of(h@)),
{
    assert forall|i: int| 0 <= i < 40 implies (#[trigger] hex_value(hex_of(h@)[i])).is_some() by {
        let b = h@[i / 2];
        assert(b / 16 < 16 && b % 16 < 16);
    }
}

/// Reading the hex text of a hash gives the hash back.
pub proof fn lemma_hex_round_trip(h: NodeHash)
    ensures
        is_hash_text(hex_of(h@)),
        hash_of_text(hex_of(h@)) == h@,
{
    lemma_hex_is_hash_text(h);
    let text = hex_of(h@);
    assert forall|i: int| 0 <= i < 20 implies hash_of_text(text)[i] == h@[i] by {
        let b = h@[i];
        assert((2 * i) / 2 == i && (2 * i) % 2 == 0);
        assert((2 * i + 1) / 2 == i && (2 * i + 1) % 2 == 1);
        assert(text[2 * i] == hex_digit(b / 16));
        assert(text[2 * i + 1] == hex_digit(b % 16));
        assert(b / 16 < 16 && b % 16 < 16);
        assert(hex_value(hex_digit(b / 16)) == Some((b / 16) as u8));
        assert(hex_value(hex_digit(b % 16)) == Some((b % 16) as u8));
        assert((b / 16) * 16 + b % 16 == b);
    }
    assert(hash_of_text(text) =~= h@);
}

} // verus!
