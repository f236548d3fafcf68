use vstd::prelude::*;
use crate::token::concat_surfaces;
use crate::token::is_end_particle;
use crate::token::Token;
use crate::token::TokenView;

verus! {

/// Length of the trailing run of sentence-final particles of a clause body.
pub open spec fn spec_ends_len(ts: Seq<TokenView>) -> nat
    decreases ts.len(),
{
    if ts.len() == 0 {
        0
    } else if is_end_particle(ts.last()) {
        1 + spec_ends_len(ts.drop_last())
    } else {
        0
    }
}

/// The clause body with its trailing sentence-final particles peeled off.
pub open spec fn spec_peel_rest(ts: Seq<TokenView>) -> Seq<TokenView> {
    ts.take(ts.len() - spec_ends_len(ts))
}

/// The surfaces of the peeled sentence-final particles, in original order.
pub open spec fn spec_peel_ends(ts: Seq<TokenView>) -> Seq<char> {
    concat_surfaces(ts.skip(ts.len() - spec_ends_len(ts)))
}

/// The trailing particle run is never longer than the body.
pub proof fn lemma_ends_len_le(ts: Seq<TokenView>)
    ensures
        spec_ends_len(ts) <= ts.len(),
    decreases ts.len(),
{
    if ts.len() > 0 && is_end_particle(ts.last()) {
        lemma_ends_len_le(ts.drop_last());
    }
}

/// The trailing particle run stops at any token that is not a
/// sentence-final particle: everything at its index and before stays in the
/// peeled body.
pub proof fn lemma_ends_len_bound(ts: Seq<TokenView>, j: int)
    requires
        0 <= j < ts.len(),
        !is_end_particle(ts[j]),
    ensures
        spec_ends_len(ts) <= ts.len() - 1 - j,
    decreases ts.len(),
{
    if ts.len() > 0 && is_end_particle(ts.last()) {
        assert(ts.drop_last()[j] == ts[j]);
        lemma_ends_len_bound(ts.drop_last(), j);
    }
}

/// Concatenate the surfaces of all tokens of a span, in order.
pub fn surfaces_string(ts: &Vec<Token>) -> (r: String)
    ensures
        r@ == concat_surfaces(ts.deep_view()),
{
    let mut r = String::new();
    let mut i: usize = 0;
    proof {
        assert(ts.deep_view().take(0) =~= Seq::<TokenView>::empty());
    }
    while i < ts.len()
        invariant
            i <= ts.deep_view().len(),
            ts.deep_view().len() == ts@.len(),
            r@ == concat_surfaces(ts.deep_view().take(i as int)),
        decreases ts.len() - i,
    {
        r.append(ts[i].surface.as_str());
        proof {
            let dv = ts.deep_view();
            assert(dv.take(i + 1).drop_last() =~= dv.take(i as int));
            assert(dv.take(i + 1).last() == dv[i as int]);
            assert(dv[i as int] == ts@[i as int]@);
        }
        i = i + 1;
    }
    proof {
        assert(ts.deep_view().take(ts.deep_view().len() as int) =~= ts.deep_view());
    }
    r
}

/// Peel the trailing sentence-final particles from a clause body: the body
/// keeps everything before the run, and the run's surfaces come back as one
/// string in their original order, ready for reattachment after the
/// predicate is rewritten.
pub fn take_ends(morphs: &mut Vec<Token>) -> (ends: String)
    ensures
        final(morphs).deep_view() == spec_peel_rest(old(morphs).deep_view()),
        ends@ == spec_peel_ends(old(morphs).deep_view()),
{
    let ghost orig = morphs.deep_view();
    let len: usize = morphs.len();
    proof {
        assert(orig.len() == len);
        lemma_ends_len_le(orig);
    }
    let mut k: usize = 0;
    proof {
        assert(orig.take(len - 0) =~= orig);
    }
    while k < len && is_end_token(&morphs[len - 1 - k])
        invariant
            morphs.deep_view() == orig,
            orig.len() == len,
            k <= len,
            spec_ends_len(orig) == k + spec_ends_len(orig.take(len - k)),
            spec_ends_len(orig.take(len - k)) <= len - k,
        decreases len - k,
    {
        proof {
            let part = orig.take(len - k);
            assert(part.last() == orig[len - 1 - k as int]);
            assert(orig[len - 1 - k as int] == morphs@[len - 1 - k as int]@);
            assert(part.drop_last() =~= orig.take(len - (k + 1)));
            lemma_ends_len_le(orig.take(len - (k + 1)));
        }
        k = k + 1;
    }
    proof {
        let part = orig.take(len - k);
        if k < len {
            assert(part.last() == orig[len - 1 - k as int]);
            assert(orig[len - 1 - k as int] == morphs@[len - 1 - k as int]@);
            assert(spec_ends_len(part) == 0);
        } else {
            assert(part =~= Seq::<TokenView>::empty());
        }
        assert(spec_ends_len(orig) == k);
    }
    let mut ends = String::new();
    let mut i: usize = len - k;
    proof {
        assert(orig.subrange(len - k, len - k) =~= Seq::<TokenView>::empty());
    }
    while i < len
        invariant
            morphs.deep_view() == orig,
            orig.len() == len,
            k <= len,
            spec_ends_len(orig) == k,
            len - k <= i <= len,
            ends@ == concat_surfaces(orig.subrange(len - k, i as int)),
        decreases len - i,
    {
        ends.append(morphs[i].surface.as_str());
        proof {
            assert(orig.subrange(len - k, i + 1).drop_last() =~= orig.subrange(len - k, i as int));
            assert(orig.subrange(len - k, i + 1).last() == orig[i as int]);
            assert(orig[i as int] == morphs@[i as int]@);
        }
        i = i + 1;
    }
    morphs.truncate(len - k);
    proof {
        assert(morphs.deep_view() =~= orig.take(len - k));
        assert(orig.subrange(len - k, len as int) =~= orig.skip(len - k));
    }
    ends
}

/// Whether this token is a sentence-final particle.
fn is_end_token(t: &Token) -> (r: bool)
    ensures
        r == is_end_particle(t@),
{
    match t.wordclass {
        crate::token::WordClass::Postpositional(p) => match p {
            crate::token::Postpositional::End => true,
            crate::token::Postpositional::SupplementaryParallelEnd => true,
            _ => false,
        },
        _ => false,
    }
}

} // verus!
