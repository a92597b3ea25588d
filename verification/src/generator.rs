//! Candidate pool generation.
//!
//! The pool is the concatenation, across all attacks in declaration order
//! and all dictionary words in dictionary order, of one candidate per
//! attack-and-word pair: a copy of the base profile with the attacked slot
//! replaced by the word. An attack whose dictionary could not be read
//! contributes nothing.

use vstd::pervasive::VecAdditionalExecFns;
use vstd::prelude::*;

verus! {

/// One attack: the slot index under attack and the dictionary loaded for
/// it, or nothing when the dictionary could not be read. Dictionaries reach
/// the generator already normalized: trimmed, lowercased, blanks removed.
pub struct Attack {
    pub index: usize,
    pub words: Option<Vec<String>>,
}

/// The candidates one attack contributes: one copy of the base profile per
/// dictionary word, with the attacked slot overlaid by that word, in
/// dictionary order. An unreadable dictionary contributes nothing.
pub open spec fn spec_attack_candidates(base: Seq<Seq<char>>, a: Attack) -> Seq<Seq<Seq<char>>> {
    match a.words {
        Option::None => seq![],
        Option::Some(ws) => Seq::new(
            ws.deep_view().len(),
            |k: int| base.update(a.index as int, ws.deep_view()[k]),
        ),
    }
}

/// The full candidate pool: attacks in declaration order, words in
/// dictionary order within each attack.
pub open spec fn spec_pool(base: Seq<Seq<char>>, attacks: Seq<Attack>) -> Seq<Seq<Seq<char>>>
    decreases attacks.len(),
{
    if attacks.len() == 0 {
        seq![]
    } else {
        spec_pool(base, attacks.drop_last()) + spec_attack_candidates(base, attacks.last())
    }
}

/// The size of one attack's dictionary; zero when it could not be read.
pub open spec fn spec_dict_len(a: Attack) -> int {
    match a.words {
        Option::None => 0,
        Option::Some(ws) => ws@.len() as int,
    }
}

/// The sum of the dictionary sizes of all attacks, in declaration order.
pub open spec fn spec_total_dict_len(attacks: Seq<Attack>) -> int
    decreases attacks.len(),
{
    if attacks.len() == 0 {
        0
    } else {
        spec_total_dict_len(attacks.drop_last()) + spec_dict_len(attacks.last())
    }
}

/// Pool size law: the pool holds exactly the sum, over all attacks, of each
/// attack's dictionary size.
pub proof fn lemma_pool_len(base: Seq<Seq<char>>, attacks: Seq<Attack>)
    ensures
        spec_pool(base, attacks).len() == spec_total_dict_len(attacks),
    decreases attacks.len(),
{
    if attacks.len() > 0 {
        lemma_pool_len(base, attacks.drop_last());
    }
}

/// Expands the base profile and the attacks into the full candidate pool.
pub fn generate_pool(base: &Vec<String>, attacks: &Vec<Attack>) -> (pool: Vec<Vec<String>>)
    requires
        base@.len() == 25,
        forall|i: int| 0 <= i < attacks@.len() ==> (#[trigger] attacks@[i]).index < 25,
    ensures
        pool.deep_view() == spec_pool(base.deep_view(), attacks@),
        forall|i: int| 0 <= i < pool@.len() ==> (#[trigger] pool@[i])@.len() == 25,
{
    let mut pool: Vec<Vec<String>> = Vec::new();
    let mut i: usize = 0;
    while i < attacks.len()
        invariant
            base@.len() == 25,
            forall|t: int| 0 <= t < attacks@.len() ==> (#[trigger] attacks@[t]).index < 25,
            i <= attacks@.len(),
            pool.deep_view() == spec_pool(base.deep_view(), attacks@.take(i as int)),
            forall|t: int| 0 <= t < pool@.len() ==> (#[trigger] pool@[t])@.len() == 25,
        decreases attacks@.len() - i,
    {
        let a = &attacks[i];
        match &a.words {
            Option::None => {
                proof {
                    assert(attacks@.take(i + 1).drop_last() =~= attacks@.take(i as int));
                    assert(attacks@.take(i + 1).last() == attacks@[i as int]);
                    assert(pool.deep_view() =~~= spec_pool(
                        base.deep_view(),
                        attacks@.take(i + 1),
                    ));
                }
            },
            Option::Some(ws) => {
                let ghost share = spec_attack_candidates(base.deep_view(), attacks@[i as int]);
                let idx = a.index;
                let mut k: usize = 0;
                while k < ws.len()
                    invariant
                        base@.len() == 25,
                        idx == attacks@[i as int].index,
                        idx < 25,
                        0 <= i < attacks@.len(),
                        attacks@[i as int].words == Option::Some(*ws),
                        share == spec_attack_candidates(base.deep_view(), attacks@[i as int]),
                        k <= ws@.len(),
                        pool.deep_view() == spec_pool(base.deep_view(), attacks@.take(i as int))
                            + share.take(k as int),
                        forall|t: int| 0 <= t < pool@.len() ==> (#[trigger] pool@[t])@.len() == 25,
                    decreases ws@.len() - k,
                {
                    let mut cand = base.clone();
                    proof {
                        assert forall|t: int| 0 <= t < 25 implies cand@[t] == base@[t] by {
                            assert(vstd::pervasive::cloned::<String>(base@[t], cand@[t]));
                        }
                        assert(cand@ =~= base@);
                    }
                    let word = ws[k].clone();
                    proof {
                        assert(vstd::pervasive::cloned::<String>(ws@[k as int], word));
                        assert(word == ws@[k as int]);
                    }
                    cand.set(idx, word);
                    proof {
                        assert(cand.deep_view() =~= base.deep_view().update(
                            idx as int,
                            ws.deep_view()[k as int],
                        ));
                        assert(cand.deep_view() == share[k as int]);
                    }
                    let ghost prev = pool.deep_view();
                    pool.push(cand);
                    proof {
                        assert(pool.deep_view() =~~= prev.push(cand.deep_view()));
                        assert(share.take(k + 1) =~= share.take(k as int).push(
                            share[k as int],
                        ));
                        assert(prev.push(cand.deep_view()) =~~= spec_pool(
                            base.deep_view(),
                            attacks@.take(i as int),
                        ) + share.take(k + 1));
                    }
                    k += 1;
                }
                proof {
                    assert(share.take(ws@.len() as int) =~= share);
                    assert(attacks@.take(i + 1).drop_last() =~= attacks@.take(i as int));
                    assert(attacks@.take(i + 1).last() == attacks@[i as int]);
                    assert(pool.deep_view() =~~= spec_pool(
                        base.deep_view(),
                        attacks@.take(i + 1),
                    ));
                }
            },
        }
        i += 1;
    }
    proof {
        assert(attacks@.take(attacks@.len() as int) =~= attacks@);
    }
    pool
}

} // verus!
