use vstd::prelude::*;
use crate::plain::clause_into_impolite;
use crate::plain::spec_clause_impolite;
use crate::polite::clause_into_polite;
use crate::polite::spec_clause_polite;
use crate::ports::InflectionAdapter;
use crate::ports::Tokenizer;
use crate::splitter::break_into_parts;
use crate::splitter::spec_split;
use crate::splitter::ClauseView;
use crate::token::result_chars;
use crate::token::ConjForm;
use crate::token::Token;
use crate::token::TokenView;
use crate::token::TransformError;

verus! {

/// The polite rendering of ordered clauses, concatenated in clause order;
/// the first fatal clause aborts the whole conversion.
pub open spec fn spec_clauses_polite<A: InflectionAdapter>(a: &A, cs: Seq<ClauseView>) -> Result<
    Seq<char>,
    TransformError,
>
    decreases cs.len(),
{
    if cs.len() == 0 {
        Ok(Seq::empty())
    } else {
        match spec_clauses_polite(a, cs.drop_last()) {
            Ok(prefix) => match spec_clause_polite(a, cs.last(), ConjForm::Basic) {
                Ok(s) => Ok(prefix + s),
                Err(e) => Err(e),
            },
            Err(e) => Err(e),
        }
    }
}

/// The plain rendering of ordered clauses, concatenated in clause order.
pub open spec fn spec_clauses_impolite<A: InflectionAdapter>(a: &A, cs: Seq<ClauseView>) -> Seq<
    char,
>
    decreases cs.len(),
{
    if cs.len() == 0 {
        Seq::empty()
    } else {
        spec_clauses_impolite(a, cs.drop_last()) + spec_clause_impolite(
            a,
            cs.last(),
            seq![ConjForm::Basic],
        )
    }
}

/// The polite rendering of a whole token sequence: split into clauses, each
/// clause rewritten independently, outputs concatenated in clause order.
pub open spec fn spec_document_polite<A: InflectionAdapter>(
    a: &A,
    tokens: Seq<TokenView>,
) -> Result<Seq<char>, TransformError> {
    spec_clauses_polite(a, spec_split(tokens))
}

/// The plain rendering of a whole token sequence.
pub open spec fn spec_document_impolite<A: InflectionAdapter>(
    a: &A,
    tokens: Seq<TokenView>,
) -> Seq<char> {
    spec_clauses_impolite(a, spec_split(tokens))
}

/// One clause more extends the rendering by that clause's rendering.
proof fn lemma_clauses_polite_step<A: InflectionAdapter>(a: &A, cs: Seq<ClauseView>, k: int)
    requires
        0 <= k < cs.len(),
    ensures
        spec_clauses_polite(a, cs.take(k + 1)) == (match spec_clauses_polite(a, cs.take(k)) {
            Ok(prefix) => match spec_clause_polite(a, cs[k], ConjForm::Basic) {
                Ok(s) => Ok::<Seq<char>, TransformError>(prefix + s),
                Err(e) => Err(e),
            },
            Err(e) => Err(e),
        }),
{
    assert(cs.take(k + 1).drop_last() =~= cs.take(k));
    assert(cs.take(k + 1).last() == cs[k]);
}

/// A fatal clause aborts the whole conversion: the error of a prefix is the
/// error of every extension of it.
proof fn lemma_clauses_polite_err_persists<A: InflectionAdapter>(
    a: &A,
    cs: Seq<ClauseView>,
    k: int,
    e: TransformError,
)
    requires
        0 <= k <= cs.len(),
        spec_clauses_polite(a, cs.take(k)) == Err::<Seq<char>, TransformError>(e),
    ensures
        spec_clauses_polite(a, cs) == Err::<Seq<char>, TransformError>(e),
    decreases cs.len() - k,
{
    if k == cs.len() {
        assert(cs.take(k) =~= cs);
    } else {
        lemma_clauses_polite_step(a, cs, k);
        lemma_clauses_polite_err_persists(a, cs, k + 1, e);
    }
}

/// Same step property for the plain rendering.
proof fn lemma_clauses_impolite_step<A: InflectionAdapter>(a: &A, cs: Seq<ClauseView>, k: int)
    requires
        0 <= k < cs.len(),
    ensures
        spec_clauses_impolite(a, cs.take(k + 1)) == spec_clauses_impolite(a, cs.take(k))
            + spec_clause_impolite(a, cs[k], seq![ConjForm::Basic]),
{
    assert(cs.take(k + 1).drop_last() =~= cs.take(k));
    assert(cs.take(k + 1).last() == cs[k]);
}

/// Rewrite an ordered token sequence into polite register, clause by clause,
/// strictly left to right.
#[verifier::loop_isolation(false)]
pub fn tokens_to_polite<A: InflectionAdapter>(a: &A, tokens: Vec<Token>) -> (r: Result<
    String,
    TransformError,
>)
    ensures
        result_chars(r) == spec_document_polite(a, tokens.deep_view()),
{
    let ghost cs = spec_split(tokens.deep_view());
    let mut clauses = break_into_parts(tokens);
    let mut out = String::new();
    let ghost mut k: int = 0;
    proof {
        assert(cs.take(0) =~= Seq::<ClauseView>::empty());
    }
    while clauses.len() > 0
        invariant
            0 <= k <= cs.len(),
            clauses.deep_view() =~= cs.skip(k),
            spec_clauses_polite(a, cs.take(k)) == Ok::<Seq<char>, TransformError>(out@),
        decreases clauses.len(),
    {
        let ghost remaining = clauses.deep_view();
        let c = clauses.remove(0);
        proof {
            assert(clauses.deep_view() =~= remaining.drop_first());
            assert(c@ == remaining.first());
            assert(remaining.first() == cs[k]);
            assert(remaining.drop_first() =~= cs.skip(k + 1));
            lemma_clauses_polite_step(a, cs, k);
        }
        match clause_into_polite(a, c, ConjForm::Basic) {
            Ok(s) => {
                out.append(s.as_str());
            },
            Err(e) => {
                proof {
                    lemma_clauses_polite_err_persists(a, cs, k + 1, e);
                }
                return Err(e);
            },
        }
        proof {
            k = k + 1;
        }
    }
    proof {
        assert(cs.skip(k) =~= clauses.deep_view());
        assert(k == cs.len());
        assert(cs.take(k) =~= cs);
    }
    Ok(out)
}

/// Rewrite an ordered token sequence into plain register, clause by clause,
/// strictly left to right.
pub fn tokens_to_impolite<A: InflectionAdapter>(a: &A, tokens: Vec<Token>) -> (r: String)
    ensures
        r@ == spec_document_impolite(a, tokens.deep_view()),
{
    let ghost cs = spec_split(tokens.deep_view());
    let mut clauses = break_into_parts(tokens);
    let mut slots: Vec<ConjForm> = Vec::new();
    slots.push(ConjForm::Basic);
    proof {
        assert(slots@ =~= seq![ConjForm::Basic]);
    }
    let mut out = String::new();
    let ghost mut k: int = 0;
    proof {
        assert(cs.take(0) =~= Seq::<ClauseView>::empty());
    }
    while clauses.len() > 0
        invariant
            0 <= k <= cs.len(),
            slots@ == seq![ConjForm::Basic],
            clauses.deep_view() =~= cs.skip(k),
            out@ == spec_clauses_impolite(a, cs.take(k)),
        decreases clauses.len(),
    {
        let ghost remaining = clauses.deep_view();
        let c = clauses.remove(0);
        proof {
            assert(clauses.deep_view() =~= remaining.drop_first());
            assert(c@ == remaining.first());
            assert(remaining.first() == cs[k]);
            assert(remaining.drop_first() =~= cs.skip(k + 1));
            lemma_clauses_impolite_step(a, cs, k);
        }
        let s = clause_into_impolite(a, c, &slots);
        out.append(s.as_str());
        proof {
            k = k + 1;
        }
    }
    proof {
        assert(cs.skip(k) =~= clauses.deep_view());
        assert(k == cs.len());
        assert(cs.take(k) =~= cs);
    }
    out
}

/// Turn a text into polite (desu/masu) register: tokenize, split into
/// clauses, rewrite each clause's final predicate, and concatenate in the
/// original order.
pub fn to_polite_sentence<T: Tokenizer, A: InflectionAdapter>(
    tokenizer: &T,
    adapter: &A,
    orig: &str,
) -> (r: Result<String, TransformError>)
    ensures
        result_chars(r) == spec_document_polite(adapter, tokenizer.spec_parse(orig@)),
{
    let tokens = tokenizer.parse(orig);
    tokens_to_polite(adapter, tokens)
}

/// Turn a text into plain (dictionary) register: tokenize, split into
/// clauses, rewrite each clause's final predicate, and concatenate in the
/// original order.
pub fn to_impolite_sentence<T: Tokenizer, A: InflectionAdapter>(
    tokenizer: &T,
    adapter: &A,
    orig: &str,
) -> (r: String)
    ensures
        r@ == spec_document_impolite(adapter, tokenizer.spec_parse(orig@)),
{
    let tokens = tokenizer.parse(orig);
    tokens_to_impolite(adapter, tokens)
}

} // verus!
