//! Sorting byte strings.

use vstd::prelude::*;
use crate::manifest::{copy_bytes, lemma_name_lt_irreflexive, name_before, name_lt};

verus! {

/// Whether the texts stand in the order of their bytes, equal ones side by
/// side.
pub open spec fn is_sorted(texts: Seq<Seq<u8>>) -> bool {
    forall|i: int, j: int| 0 <= i < j < texts.len() ==> !name_lt(#[trigger] texts[j], #[trigger] texts[i])
}

/// The order of names is transitive.
pub proof fn lemma_name_lt_transitive(a: Seq<u8>, b: Seq<u8>, c: Seq<u8>)
    requires
        name_lt(a, b),
        name_lt(b, c),
    ensures
        name_lt(a, c),
    decreases a.len(),
{
    if a.len() > 0 && a[0] == b[0] && b[0] == c[0] {
        lemma_name_lt_transitive(a.drop_first(), b.drop_first(), c.drop_first());
    }
}

fn place_of(sorted: &Vec<Vec<u8>>, text: &Vec<u8>) -> (k: usize)
    ensures
        k <= sorted@.len(),
        forall|j: int| 0 <= j < k ==> !name_lt(text@, #[trigger] sorted@[j]@),
        k < sorted@.len() ==> name_lt(text@, sorted@[k as int]@),
{
    let mut k: usize = 0;
    while k < sorted.len() && !name_before(text, &sorted[k])
        invariant
            k <= sorted@.len(),
            forall|j: int| 0 <= j < k ==> !name_lt(text@, #[trigger] sorted@[j]@),
        decreases sorted@.len() - k,
    {
        k += 1;
    }
    k
}

/// Sorts byte strings by their bytes, a proper prefix before what it is a
/// prefix of.
pub fn sort_texts(texts: &Vec<Vec<u8>>) -> (out: Vec<Vec<u8>>)
    ensures
        is_sorted(out.deep_view()),
        out.deep_view().to_multiset() == texts.deep_view().to_multiset(),
{
    let mut out: Vec<Vec<u8>> = Vec::new();
    let mut i: usize = 0;
    proof {
        assert(texts.deep_view().take(0) =~= Seq::<Seq<u8>>::empty());
        assert(out.deep_view() =~= Seq::<Seq<u8>>::empty());
    }
    while i < texts.len()
        invariant
            i <= texts@.len(),
            is_sorted(out.deep_view()),
            out.deep_view().to_multiset() == texts.deep_view().take(i as int).to_multiset(),
        decreases texts@.len() - i,
    {
        let text = copy_bytes(&texts[i]);
        let k = place_of(&out, &text);
        let ghost before = out.deep_view();
        let ghost placed = out@;
        proof {
            assert forall|j: int| 0 <= j < out@.len() implies #[trigger] before[j] == out@[j]@ by {
                assert(before[j] =~= out@[j]@);
            }
        }
        out.insert(k, text);
        proof {
            let after = out.deep_view();
            assert(after =~~= before.insert(k as int, text@));
            assert forall|a: int, b: int| 0 <= a < b < after.len() implies !name_lt(
                #[trigger] after[b],
                #[trigger] after[a],
            ) by {
                if b == k {
                    assert(after[a] == before[a]);
                    assert(before[a] == placed[a]@);
                } else if a == k {
                    assert(after[b] == before[b - 1]);
                    assert(before[k as int] == placed[k as int]@);
                    assert(name_lt(text@, before[k as int]));
                    if b - 1 > k {
                        assert(!name_lt(before[b - 1], before[k as int]));
                    }
                    if name_lt(before[b - 1], text@) {
                        lemma_name_lt_transitive(before[b - 1], text@, before[k as int]);
                        lemma_name_lt_irreflexive(before[k as int]);
                    }
                } else {
                    let a0 = if a < k { a } else { a - 1 };
                    let b0 = if b < k { b } else { b - 1 };
                    assert(after[a] == before[a0] && after[b] == before[b0]);
                    assert(!name_lt(before[b0], before[a0]));
                }
            }
            vstd::seq_lib::to_multiset_insert(before, k as int, text@);
            let upto = texts.deep_view().take(i + 1);
            assert(texts.deep_view()[i as int] =~= texts@[i as int]@);
            assert(upto =~= texts.deep_view().take(i as int).push(text@));
            vstd::seq_lib::to_multiset_build(texts.deep_view().take(i as int), text@);
        }
        i += 1;
    }
    assert(texts.deep_view().take(texts@.len() as int) =~= texts.deep_view());
    out
}

} // verus!
