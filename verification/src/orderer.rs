//! Canonical passphrase assembly.
//!
//! A candidate answer set is turned into the exact passphrase string the
//! vault format expects: the slots are visited in the order given by a fixed
//! permutation, each slot value is normalized (surrounding whitespace
//! trimmed, then lowercased), and the normalized pieces are concatenated
//! with no separator.

use vstd::prelude::*;
use vstd::string::*;

verus! {

/// The characters of `s` with leading and trailing whitespace removed.
pub uninterp spec fn trim_of(s: Seq<char>) -> Seq<char>;

/// The lowercase conversion of the characters of `s`.
pub uninterp spec fn lower_of(s: Seq<char>) -> Seq<char>;

/// Relies on `str::trim`: removes leading and trailing whitespace; the result
/// depends on the characters alone.
#[verifier::external_body]
pub(crate) fn trim_str(s: &str) -> (r: String)
    ensures
        r@ == trim_of(s@),
{
    s.trim().to_owned()
}

/// Relies on `str::to_lowercase`: the result depends on the characters alone.
#[verifier::external_body]
pub(crate) fn lower_str(s: &str) -> (r: String)
    ensures
        r@ == lower_of(s@),
{
    s.to_lowercase()
}

/// The normalization applied to every slot value before it enters the
/// passphrase: trim surrounding whitespace, then lowercase.
pub open spec fn norm_of(s: Seq<char>) -> Seq<char> {
    lower_of(trim_of(s))
}

/// Normalizes one slot value: trims surrounding whitespace, then lowercases.
pub fn normalize_slot(s: &str) -> (r: String)
    ensures
        r@ == norm_of(s@),
{
    let t = trim_str(s);
    lower_str(t.as_str())
}

/// A true permutation of the slot indices `0..25`: every value is in range,
/// none repeats, and none is missing.
pub open spec fn is_slot_permutation(s: Seq<usize>) -> bool {
    &&& s.len() == 25
    &&& forall|i: int| 0 <= i < s.len() ==> (s[i] as int) < 25
    &&& forall|i: int, j: int|
        0 <= i < s.len() && 0 <= j < s.len() && i != j ==> s[i] != s[j]
    &&& forall|v: usize| v < 25 ==> #[trigger] s.contains(v)
}

/// The fixed permutation defining the order in which slot values are
/// concatenated to form the passphrase. Validated once, at construction.
pub struct SlotOrder {
    order: Vec<usize>,
}

impl SlotOrder {
    pub closed spec fn spec_order(&self) -> Seq<usize> {
        self.order@
    }

    pub open spec fn wf(&self) -> bool {
        is_slot_permutation(self.spec_order())
    }

    /// Accepts the table only when it is a true permutation of `0..25`.
    pub fn new(order: Vec<usize>) -> (r: Option<SlotOrder>)
        ensures
            match r {
                Some(so) => so.wf() && so.spec_order() == order@
                    && is_slot_permutation(order@),
                None => !is_slot_permutation(order@),
            },
    {
        if order.len() != 25 {
            return None;
        }
        let mut seen: Vec<bool> = Vec::new();
        let mut v: usize = 0;
        while v < 25
            invariant
                seen@.len() == v,
                v <= 25,
                forall|w: int| 0 <= w < v ==> !seen@[w],
            decreases 25 - v,
        {
            seen.push(false);
            v += 1;
        }
        let mut i: usize = 0;
        while i < 25
            invariant
                order@.len() == 25,
                seen@.len() == 25,
                i <= 25,
                forall|j: int| 0 <= j < i ==> (order@[j] as int) < 25,
                forall|j: int, k: int|
                    0 <= j < i && 0 <= k < i && j != k ==> order@[j] != order@[k],
                forall|w: int|
                    0 <= w < 25 ==> (seen@[w] <==> exists|j: int|
                        0 <= j < i && (order@[j] as int) == w),
            decreases 25 - i,
        {
            let x = order[i];
            if x >= 25 {
                return None;
            }
            if seen[x] {
                return None;
            }
            seen.set(x, true);
            proof {
                assert(forall|w: int|
                    0 <= w < 25 ==> (seen@[w] <==> exists|j: int|
                        0 <= j < i + 1 && (order@[j] as int) == w)) by {
                    assert(forall|w: int|
                        0 <= w < 25 && seen@[w] && w != (x as int) ==> exists|j: int|
                            0 <= j < i + 1 && (order@[j] as int) == w);
                    assert((order@[i as int] as int) == x as int);
                }
            }
            i += 1;
        }
        let mut w: usize = 0;
        while w < 25
            invariant
                order@.len() == 25,
                seen@.len() == 25,
                w <= 25,
                forall|j: int| 0 <= j < 25 ==> (order@[j] as int) < 25,
                forall|j: int, k: int|
                    0 <= j < 25 && 0 <= k < 25 && j != k ==> order@[j] != order@[k],
                forall|u: int|
                    0 <= u < 25 ==> (seen@[u] <==> exists|j: int|
                        0 <= j < 25 && (order@[j] as int) == u),
                forall|u: int| 0 <= u < w ==> seen@[u],
            decreases 25 - w,
        {
            if !seen[w] {
                proof {
                    assert(!order@.contains(w)) by {
                        if order@.contains(w) {
                            let j = choose|j: int|
                                0 <= j < order@.len() && order@[j] == w;
                            assert((order@[j] as int) == w as int);
                            assert(seen@[w as int]);
                        }
                    }
                }
                return None;
            }
            w += 1;
        }
        proof {
            assert forall|v: usize| v < 25 implies order@.contains(v) by {
                assert(seen@[v as int]);
                let j = choose|j: int| 0 <= j < 25 && (order@[j] as int) == v as int;
                assert(0 <= j < order@.len() && order@[j] == v);
            }
        }
        Some(SlotOrder { order })
    }

    /// The slot index visited at position `j` of the assembly order.
    pub fn get(&self, j: usize) -> (r: usize)
        requires
            self.wf(),
            j < 25,
        ensures
            r == self.spec_order()[j as int],
            r < 25,
    {
        self.order[j]
    }
}

/// The normalized slot values of `cand`, one per position of the assembly
/// order: position `j` carries the normalization of slot `ord[j]`.
pub open spec fn spec_segments(cand: Seq<Seq<char>>, ord: Seq<usize>) -> Seq<Seq<char>> {
    Seq::new(ord.len(), |j: int| norm_of(cand[ord[j] as int]))
}

/// The canonical passphrase of a candidate: the concatenation, in assembly
/// order, of its normalized slot values.
pub open spec fn spec_passphrase(cand: Seq<Seq<char>>, ord: Seq<usize>) -> Seq<char> {
    spec_segments(cand, ord).flatten()
}

/// Assembles the canonical passphrase of one candidate. Deterministic:
/// the result is a pure function of the candidate's contents and the order.
pub fn passphrase(cand: &Vec<String>, order: &SlotOrder) -> (r: String)
    requires
        order.wf(),
        cand@.len() == 25,
    ensures
        r@ == spec_passphrase(cand.deep_view(), order.spec_order()),
{
    let ghost segs = spec_segments(cand.deep_view(), order.spec_order());
    let mut r = String::new();
    let mut j: usize = 0;
    while j < 25
        invariant
            order.wf(),
            cand@.len() == 25,
            j <= 25,
            segs == spec_segments(cand.deep_view(), order.spec_order()),
            r@ == segs.take(j as int).flatten(),
        decreases 25 - j,
    {
        let idx = order.get(j);
        let piece = normalize_slot(cand[idx].as_str());
        r.append(piece.as_str());
        proof {
            assert(cand.deep_view()[idx as int] == cand@[idx as int]@);
            assert(piece@ == segs[j as int]);
            assert(segs.take(j + 1) =~= segs.take(j as int).push(segs[j as int]));
            segs.take(j as int).lemma_flatten_push(segs[j as int]);
        }
        j += 1;
    }
    proof {
        assert(segs.take(25) =~= segs);
    }
    r
}

/// Orderer locality: two candidates that differ in slot `k` alone get
/// passphrases whose segments agree at every assembly position other than
/// the one that visits slot `k`, and such a position exists and is unique.
pub proof fn lemma_passphrase_locality(
    c1: Seq<Seq<char>>,
    c2: Seq<Seq<char>>,
    ord: Seq<usize>,
    k: usize,
)
    requires
        is_slot_permutation(ord),
        c1.len() == 25,
        c2.len() == 25,
        k < 25,
        forall|s: int| 0 <= s < 25 && s != k as int ==> c1[s] == c2[s],
    ensures
        spec_passphrase(c1, ord) == spec_segments(c1, ord).flatten(),
        spec_passphrase(c2, ord) == spec_segments(c2, ord).flatten(),
        forall|j: int|
            0 <= j < 25 && ord[j] != k ==> #[trigger] spec_segments(c1, ord)[j]
                == spec_segments(c2, ord)[j],
        ord.contains(k),
        forall|j1: int, j2: int|
            0 <= j1 < 25 && 0 <= j2 < 25 && ord[j1] == k && ord[j2] == k ==> j1 == j2,
{
}

} // verus!
