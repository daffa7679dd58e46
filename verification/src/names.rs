//! The order of names: strings compared byte by byte, as the standard
//! library orders them.

use vstd::prelude::*;
use vstd::string::StringSliceAdditionalSpecFns;
use vstd::utf8::{encode_utf8_decode_utf8, is_ascii_chars, is_ascii_chars_encode_utf8};

verus! {

/// `a` comes before `b`, the two being equal up to position `k`: at the
/// first position from `k` on where they differ, `a` has the smaller byte,
/// or `a` ends there and `b` goes on.
pub open spec fn precedes_from(a: Seq<u8>, b: Seq<u8>, k: int) -> bool
    decreases b.len() - k,
{
    if k < 0 || k >= b.len() {
        false
    } else if k >= a.len() {
        true
    } else if a[k] != b[k] {
        a[k] < b[k]
    } else {
        precedes_from(a, b, k + 1)
    }
}

/// `a` comes strictly before `b` in the order of strings.
pub open spec fn precedes(a: Seq<u8>, b: Seq<u8>) -> bool {
    precedes_from(a, b, 0)
}

/// How one name stands to another.
#[derive(Clone, Copy, Debug, PartialEq, Eq, Structural)]
pub enum Rank {
    Before,
    Same,
    After,
}

/// How `a` stands to `b` in the order of strings.
pub open spec fn rank_of(a: Seq<u8>, b: Seq<u8>) -> Rank {
    if precedes(a, b) {
        Rank::Before
    } else if a == b {
        Rank::Same
    } else {
        Rank::After
    }
}

/// Nothing comes before itself.
pub proof fn lemma_precedes_irreflexive(a: Seq<u8>, k: int)
    ensures
        !precedes_from(a, a, k),
    decreases a.len() - k,
{
    if 0 <= k < a.len() {
        lemma_precedes_irreflexive(a, k + 1);
    }
}

/// The order is transitive.
pub proof fn lemma_precedes_transitive(a: Seq<u8>, b: Seq<u8>, c: Seq<u8>, k: int)
    requires
        precedes_from(a, b, k),
        precedes_from(b, c, k),
    ensures
        precedes_from(a, c, k),
    decreases c.len() - k,
{
    if k < a.len() && a[k] == b[k] && b[k] == c[k] {
        lemma_precedes_transitive(a, b, c, k + 1);
    }
}

/// Two strings that agree from `from` up to `k`, where the first ends or has
/// the smaller byte, are in order.
pub proof fn lemma_precedes_at(a: Seq<u8>, b: Seq<u8>, from: int, k: int)
    requires
        0 <= from <= k <= a.len(),
        k < b.len(),
        forall|i: int| from <= i < k ==> a[i] == b[i],
        k < a.len() ==> a[k] < b[k],
    ensures
        precedes_from(a, b, from),
    decreases k - from,
{
    if from < k {
        lemma_precedes_at(a, b, from + 1, k);
    }
}

/// Two ASCII names that agree up to position `k`, where the first ends or
/// has the smaller character, are in order.
pub proof fn lemma_names_in_order(a: &str, b: &str, k: int)
    requires
        is_ascii_chars(a@),
        is_ascii_chars(b@),
        0 <= k <= a@.len(),
        k < b@.len(),
        forall|i: int| 0 <= i < k ==> a@[i] == b@[i],
        k < a@.len() ==> (a@[k] as u8) < (b@[k] as u8),
    ensures
        precedes(a.spec_bytes(), b.spec_bytes()),
{
    is_ascii_chars_encode_utf8(a@);
    is_ascii_chars_encode_utf8(b@);
    lemma_precedes_at(a.spec_bytes(), b.spec_bytes(), 0, k);
}

/// How `a` stands to `b` in the order of strings.
pub fn rank(a: &str, b: &str) -> (r: Rank)
    ensures
        r == rank_of(a.spec_bytes(), b.spec_bytes()),
        r == Rank::Same <==> a@ == b@,
{
    let left = a.as_bytes();
    let right = b.as_bytes();
    proof {
        encode_utf8_decode_utf8(a@);
        encode_utf8_decode_utf8(b@);
    }
    let mut k: usize = 0;
    while k < left.len() && k < right.len()
        invariant
            k <= left.len(),
            k <= right.len(),
            left@ == a.spec_bytes(),
            right@ == b.spec_bytes(),
            forall|i: int| 0 <= i < k ==> left[i] == right[i],
            precedes(left@, right@) == precedes_from(left@, right@, k as int),
        decreases left.len() - k,
    {
        if left[k] < right[k] {
            return Rank::Before;
        }
        if left[k] > right[k] {
            return Rank::After;
        }
        k += 1;
    }
    if k < right.len() {
        Rank::Before
    } else if k < left.len() {
        Rank::After
    } else {
        proof {
            assert(left@ =~= right@);
            lemma_precedes_irreflexive(left@, 0);
        }
        Rank::Same
    }
}

} // verus!
