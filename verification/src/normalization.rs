use vstd::prelude::*;
use crate::types::{BraidWord, Generator};

verus! {

/// Two generators are mutual inverses when one is the overcrossing and the
/// other the undercrossing at the same index.
pub open spec fn are_inverses(a: Generator, b: Generator) -> bool {
    match (a, b) {
        (Generator::Sigma(k1), Generator::InverseSigma(k2)) => k1 == k2,
        (Generator::InverseSigma(k1), Generator::Sigma(k2)) => k1 == k2,
        _ => false,
    }
}

/// One left-to-right cancellation pass: whenever the two leading elements are
/// mutual inverses both are dropped and the scan continues past them,
/// otherwise the leading element is kept.
pub open spec fn cancel_pass(s: Seq<Generator>) -> Seq<Generator>
    decreases s.len(),
{
    if s.len() >= 2 && are_inverses(s[0], s[1]) {
        cancel_pass(s.skip(2))
    } else if s.len() >= 1 {
        seq![s[0]] + cancel_pass(s.skip(1))
    } else {
        Seq::empty()
    }
}

/// The free reduction of a word: cancellation passes repeated until a pass
/// removes nothing.
pub open spec fn free_reduce(s: Seq<Generator>) -> Seq<Generator>
    decreases s.len(),
    via free_reduce_decreases
{
    if cancel_pass(s).len() == s.len() {
        s
    } else {
        free_reduce(cancel_pass(s))
    }
}

#[via_fn]
proof fn free_reduce_decreases(s: Seq<Generator>) {
    lemma_cancel_pass_len(s);
}

/// A cancellation pass never lengthens a word, and a pass that keeps the
/// length has changed nothing.
pub proof fn lemma_cancel_pass_len(s: Seq<Generator>)
    ensures
        cancel_pass(s).len() <= s.len(),
        cancel_pass(s).len() == s.len() ==> cancel_pass(s) == s,
    decreases s.len(),
{
    if s.len() >= 2 && are_inverses(s[0], s[1]) {
        lemma_cancel_pass_len(s.skip(2));
    } else if s.len() >= 1 {
        lemma_cancel_pass_len(s.skip(1));
        if cancel_pass(s).len() == s.len() {
            assert(cancel_pass(s.skip(1)) == s.skip(1));
            assert(cancel_pass(s) =~= s);
        }
    }
}

/// A word has no adjacent inverse pair exactly when it is untouched by a
/// cancellation pass.
pub open spec fn is_reduced(s: Seq<Generator>) -> bool {
    forall|i: int| 0 <= i && i + 1 < s.len() ==> !are_inverses(#[trigger] s[i], s[i + 1])
}

/// A word that a cancellation pass leaves at full length has no two adjacent
/// elements that are mutual inverses.
pub proof fn lemma_fixpoint_is_reduced(s: Seq<Generator>)
    requires
        cancel_pass(s).len() == s.len(),
    ensures
        is_reduced(s),
    decreases s.len(),
{
    lemma_cancel_pass_len(s);
    if s.len() >= 2 && are_inverses(s[0], s[1]) {
        lemma_cancel_pass_len(s.skip(2));
        assert(cancel_pass(s).len() <= s.len() - 2);
    } else if s.len() >= 1 {
        lemma_cancel_pass_len(s.skip(1));
        assert(cancel_pass(s.skip(1)).len() == s.skip(1).len());
        lemma_fixpoint_is_reduced(s.skip(1));
        assert forall|i: int| 0 <= i && i + 1 < s.len() implies !are_inverses(
            #[trigger] s[i],
            s[i + 1],
        ) by {
            if i > 0 {
                assert(s.skip(1)[i - 1] == s[i]);
                assert(s.skip(1)[i] == s[i + 1]);
            }
        }
    }
}

/// The free reduction of a word is a fixed point of the cancellation pass.
pub proof fn lemma_free_reduce_fixpoint(s: Seq<Generator>)
    ensures
        cancel_pass(free_reduce(s)).len() == free_reduce(s).len(),
    decreases s.len(),
{
    lemma_cancel_pass_len(s);
    if cancel_pass(s).len() != s.len() {
        lemma_free_reduce_fixpoint(cancel_pass(s));
    }
}

/// Free reduction is idempotent: normalizing an already normalized word is a
/// no-op.
pub proof fn lemma_free_reduce_idempotent(s: Seq<Generator>)
    ensures
        free_reduce(free_reduce(s)) == free_reduce(s),
{
    lemma_free_reduce_fixpoint(s);
}

/// A freely reduced word has no adjacent inverse pair.
pub proof fn lemma_free_reduce_reduced(s: Seq<Generator>)
    ensures
        is_reduced(free_reduce(s)),
{
    lemma_free_reduce_fixpoint(s);
    lemma_fixpoint_is_reduced(free_reduce(s));
}

/// Returns true when the two generators are mutual inverses.
fn are_inverses_exec(a: &Generator, b: &Generator) -> (r: bool)
    ensures
        r == are_inverses(*a, *b),
{
    match (a, b) {
        (Generator::Sigma(k1), Generator::InverseSigma(k2)) => k1 == k2,
        (Generator::InverseSigma(k1), Generator::Sigma(k2)) => k1 == k2,
        _ => false,
    }
}

/// Runs one cancellation pass over the generators.
fn cancel_pass_exec(generators: &Vec<Generator>) -> (out: Vec<Generator>)
    ensures
        out@ == cancel_pass(generators@),
{
    let mut out: Vec<Generator> = Vec::new();
    let mut i: usize = 0;
    proof {
        assert(generators@.skip(0) =~= generators@);
    }
    while i < generators.len()
        invariant
            i <= generators@.len(),
            cancel_pass(generators@) == out@ + cancel_pass(generators@.skip(i as int)),
        decreases generators@.len() - i,
    {
        let ghost rest = generators@.skip(i as int);
        if i + 1 < generators.len() {
            let current = generators[i];
            let next = generators[i + 1];
            proof {
                assert(rest[0] == generators@[i as int]);
                assert(rest[1] == generators@[i as int + 1]);
            }
            if are_inverses_exec(&current, &next) {
                proof {
                    assert(rest.skip(2) =~= generators@.skip(i as int + 2));
                    assert(cancel_pass(rest) == cancel_pass(generators@.skip(i as int + 2)));
                }
                i = i + 2;
                continue ;
            }
        }
        let ghost out0 = out@;
        out.push(generators[i]);
        proof {
            assert(rest[0] == generators@[i as int]);
            assert(rest.skip(1) =~= generators@.skip(i as int + 1));
            assert(cancel_pass(rest) == seq![rest[0]] + cancel_pass(rest.skip(1)));
            assert(out0.push(generators@[i as int]) + cancel_pass(generators@.skip(i as int + 1))
                =~= out0 + cancel_pass(rest));
        }
        i = i + 1;
    }
    proof {
        assert(generators@.skip(generators@.len() as int) =~= Seq::<Generator>::empty());
        assert(out@ =~= out@ + cancel_pass(generators@.skip(i as int)));
    }
    out
}

/// Reduces a braid word by removing adjacent inverse pairs (free reduction).
///
/// Cancellation passes repeat until one removes nothing; afterwards no two
/// adjacent generators of the word are mutual inverses. This is local
/// cancellation only, not a canonical form for the braid group.
pub fn normalize(word: &mut BraidWord)
    ensures
        final(word)@ == free_reduce(old(word)@),
        is_reduced(final(word)@),
{
    loop
        invariant
            free_reduce(word@) == free_reduce(old(word)@),
        ensures
            word@ == free_reduce(old(word)@),
            is_reduced(word@),
        decreases word@.len(),
    {
        let ghost before = word@;
        let passed = cancel_pass_exec(word.iter());
        let changed = passed.len() != word.len();
        word.replace_generators(passed);
        proof {
            lemma_cancel_pass_len(before);
            if changed {
                assert(free_reduce(before) == free_reduce(cancel_pass(before)));
            } else {
                assert(free_reduce(before) == before);
            }
        }
        if !changed {
            proof {
                lemma_free_reduce_reduced(old(word)@);
            }
            break ;
        }
    }
}

} // verus!
