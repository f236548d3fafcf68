use vstd::prelude::*;
use crate::token::str_is;
use crate::token::ConjForm;
use crate::token::ConjKind;
use crate::token::Inflection;
use crate::token::Postpositional;
use crate::token::Symbol;
use crate::token::Token;
use crate::token::TokenView;
use crate::token::WordClass;

verus! {

/// A maximal token span between register-sensitive break points: ordered body
/// tokens plus exactly one trailing separator token.
pub struct Clause {
    pub body: Vec<Token>,
    pub sep: Token,
}

/// Mathematical model of a clause.
pub struct ClauseView {
    pub body: Seq<TokenView>,
    pub sep: TokenView,
}

impl View for Clause {
    type V = ClauseView;

    open spec fn view(&self) -> ClauseView {
        ClauseView { body: self.body.deep_view(), sep: self.sep@ }
    }
}

impl DeepView for Clause {
    type V = ClauseView;

    open spec fn deep_view(&self) -> ClauseView {
        self@
    }
}

/// The tokens of one clause, body first, separator last.
pub open spec fn clause_tokens(c: ClauseView) -> Seq<TokenView> {
    c.body.push(c.sep)
}

/// The tokens of a clause sequence, concatenated in order.
pub open spec fn clauses_tokens(cs: Seq<ClauseView>) -> Seq<TokenView>
    decreases cs.len(),
{
    if cs.len() == 0 {
        Seq::empty()
    } else {
        clauses_tokens(cs.drop_last()) + clause_tokens(cs.last())
    }
}

/// Parenthesis nesting depth after reading one more token. More closes than
/// opens is undefined upstream; the depth is clamped to zero rather than
/// treated as fatal.
pub open spec fn spec_next_depth(t: TokenView, d: nat) -> nat {
    if t.wordclass == WordClass::Symbol(Symbol::OpenParen) {
        d + 1
    } else if t.wordclass == WordClass::Symbol(Symbol::CloseParen) {
        if d == 0 {
            0
        } else {
            (d - 1) as nat
        }
    } else {
        d
    }
}

/// Whether a clause break is declared at a token, read at the nesting depth
/// that includes the token's own effect. Inside parentheses (depth one or
/// more) no break is ever declared; at depth zero a break is declared at a
/// period, and before an adversative clause, at a conjunction particle whose
/// lemma is the adversative particle (appending politeness only to the
/// following clause would read unnaturally otherwise).
pub open spec fn spec_is_break(t: TokenView, depth: nat) -> bool {
    &&& depth == 0
    &&& {
        ||| t.wordclass == WordClass::Symbol(Symbol::Period)
        ||| (t.wordclass == WordClass::Postpositional(Postpositional::Conjunction) && t.basic
            == "が"@)
    }
}

/// The synthetic period that closes a final clause when the input lacks
/// terminal punctuation.
pub open spec fn spec_synthetic_period() -> TokenView {
    TokenView {
        surface: "。"@,
        basic: "。"@,
        wordclass: WordClass::Symbol(Symbol::Period),
        inflection: Inflection { kind: ConjKind::Uninflected, form: ConjForm::Uninflected },
        reading: "。"@,
        pronunciation: "。"@,
        start: usize::MAX,
    }
}

/// The clause segmentation, as a single left-to-right scan: `body` is the
/// span accumulated so far, `d` the nesting depth at its end. On a break the
/// body plus the breaking token become a clause; at the end of the stream an
/// unflushed body is closed by a synthetic period.
pub open spec fn spec_split_scan(rest: Seq<TokenView>, body: Seq<TokenView>, d: nat) -> Seq<
    ClauseView,
>
    decreases rest.len(),
{
    if rest.len() == 0 {
        if body.len() == 0 {
            Seq::empty()
        } else {
            seq![ClauseView { body, sep: spec_synthetic_period() }]
        }
    } else {
        let t = rest.first();
        let d2 = spec_next_depth(t, d);
        if spec_is_break(t, d2) {
            seq![ClauseView { body, sep: t }] + spec_split_scan(rest.drop_first(), Seq::empty(), d2)
        } else {
            spec_split_scan(rest.drop_first(), body.push(t), d2)
        }
    }
}

/// The ordered clauses of a token sequence.
pub open spec fn spec_split(ts: Seq<TokenView>) -> Seq<ClauseView> {
    spec_split_scan(ts, Seq::empty(), 0)
}

/// Segmentation is a lossless partition: concatenating all clause bodies and
/// separators in order reproduces the scanned tokens, except that a final
/// clause closed at end of stream carries the synthetic period.
proof fn lemma_split_scan_partition(rest: Seq<TokenView>, body: Seq<TokenView>, d: nat)
    ensures
        clauses_tokens(spec_split_scan(rest, body, d)) == body + rest || clauses_tokens(
            spec_split_scan(rest, body, d),
        ) == (body + rest).push(spec_synthetic_period()),
    decreases rest.len(),
{
    if rest.len() == 0 {
        if body.len() == 0 {
            assert(clauses_tokens(spec_split_scan(rest, body, d)) =~= body + rest);
        } else {
            let cs = spec_split_scan(rest, body, d);
            assert(cs.drop_last() =~= Seq::<ClauseView>::empty());
            assert(clauses_tokens(cs.drop_last()) == Seq::<TokenView>::empty());
            assert(body + rest =~= body);
            assert(clauses_tokens(cs) =~= (body + rest).push(spec_synthetic_period()));
        }
    } else {
        let t = rest.first();
        let d2 = spec_next_depth(t, d);
        if spec_is_break(t, d2) {
            lemma_split_scan_partition(rest.drop_first(), Seq::empty(), d2);
            let head = ClauseView { body, sep: t };
            let tail = spec_split_scan(rest.drop_first(), Seq::empty(), d2);
            lemma_clauses_tokens_cons(head, tail);
            assert(clause_tokens(head) =~= body.push(t));
            assert(Seq::<TokenView>::empty() + rest.drop_first() =~= rest.drop_first());
            assert(body.push(t) + rest.drop_first() =~= body + rest);
            if clauses_tokens(tail) == Seq::<TokenView>::empty() + rest.drop_first() {
                assert(clauses_tokens(spec_split_scan(rest, body, d)) =~= body + rest);
            } else {
                assert(clauses_tokens(tail) =~= rest.drop_first().push(spec_synthetic_period()));
                assert(clauses_tokens(spec_split_scan(rest, body, d)) =~= (body + rest).push(
                    spec_synthetic_period(),
                ));
            }
        } else {
            lemma_split_scan_partition(rest.drop_first(), body.push(t), d2);
            assert(body.push(t) + rest.drop_first() =~= body + rest);
        }
    }
}

/// Prepending one clause prepends exactly its tokens.
proof fn lemma_clauses_tokens_cons(c: ClauseView, cs: Seq<ClauseView>)
    ensures
        clauses_tokens(seq![c] + cs) == clause_tokens(c) + clauses_tokens(cs),
    decreases cs.len(),
{
    if cs.len() == 0 {
        assert(seq![c] + cs =~= seq![c]);
        assert(seq![c].drop_last() =~= Seq::<ClauseView>::empty());
        assert(clauses_tokens(seq![c].drop_last()) == Seq::<TokenView>::empty());
        assert(clauses_tokens(seq![c]) =~= clause_tokens(c));
        assert(clause_tokens(c) + clauses_tokens(cs) =~= clause_tokens(c));
    } else {
        lemma_clauses_tokens_cons(c, cs.drop_last());
        assert((seq![c] + cs).drop_last() =~= seq![c] + cs.drop_last());
        assert((seq![c] + cs).last() == cs.last());
        assert((clause_tokens(c) + clauses_tokens(cs.drop_last())) + clause_tokens(cs.last()) =~= clause_tokens(
            c,
        ) + (clauses_tokens(cs.drop_last()) + clause_tokens(cs.last())));
    }
}

/// Segmentation is a lossless partition: the tokens of all clauses, in
/// order, are the input token sequence, at most extended by the synthetic
/// period that closes a final clause when terminal punctuation is missing.
pub proof fn lemma_segmentation_lossless(ts: Seq<TokenView>)
    ensures
        clauses_tokens(spec_split(ts)) == ts || clauses_tokens(spec_split(ts)) == ts.push(
            spec_synthetic_period(),
        ),
{
    lemma_split_scan_partition(ts, Seq::empty(), 0);
    assert(Seq::<TokenView>::empty() + ts =~= ts);
}

/// The nesting depth after one more token, clamped at zero.
fn next_depth(t: &Token, d: usize) -> (r: usize)
    requires
        d < usize::MAX,
    ensures
        r == spec_next_depth(t@, d as nat),
{
    if t.wordclass == WordClass::Symbol(Symbol::OpenParen) {
        d + 1
    } else if t.wordclass == WordClass::Symbol(Symbol::CloseParen) {
        if d == 0 {
            0
        } else {
            d - 1
        }
    } else {
        d
    }
}

/// Whether a clause break is declared at this token at this depth.
fn is_break(t: &Token, depth: usize) -> (r: bool)
    ensures
        r == spec_is_break(t@, depth as nat),
{
    if depth != 0 {
        return false;
    }
    if t.wordclass == WordClass::Symbol(Symbol::Period) {
        return true;
    }
    if t.wordclass == WordClass::Postpositional(Postpositional::Conjunction) {
        return str_is(&t.basic, "が");
    }
    false
}

/// The synthetic period token.
fn synthetic_period() -> (t: Token)
    ensures
        t@ == spec_synthetic_period(),
{
    Token {
        surface: "。".to_owned(),
        basic: "。".to_owned(),
        wordclass: WordClass::Symbol(Symbol::Period),
        inflection: Inflection { kind: ConjKind::Uninflected, form: ConjForm::Uninflected },
        reading: "。".to_owned(),
        pronunciation: "。".to_owned(),
        start: usize::MAX,
    }
}

/// Split ordered tokens into ordered clauses: one left-to-right scan that
/// breaks at periods and at the adversative conjunction particle when the
/// parenthesis nesting depth is zero, and closes a final unterminated clause
/// with a synthetic period.
pub fn break_into_parts(tokens: Vec<Token>) -> (r: Vec<Clause>)
    ensures
        r.deep_view() == spec_split(tokens.deep_view()),
{
    let ghost orig = tokens.deep_view();
    let mut rest = tokens;
    let total: usize = rest.len();
    proof {
        assert(orig.len() == total);
    }
    let mut body: Vec<Token> = Vec::new();
    let mut clauses: Vec<Clause> = Vec::new();
    let mut depth: usize = 0;
    proof {
        assert(clauses.deep_view() =~= Seq::<ClauseView>::empty());
        assert(body.deep_view() =~= Seq::<TokenView>::empty());
        assert(clauses.deep_view() + spec_split_scan(rest.deep_view(), body.deep_view(), depth as nat)
            =~= spec_split(orig));
    }
    while rest.len() > 0
        invariant
            orig.len() == total,
            rest.deep_view().len() + depth <= orig.len(),
            spec_split(orig) == clauses.deep_view() + spec_split_scan(
                rest.deep_view(),
                body.deep_view(),
                depth as nat,
            ),
        decreases rest.len(),
    {
        let ghost rest0 = rest.deep_view();
        let ghost body0 = body.deep_view();
        let ghost clauses0 = clauses.deep_view();
        let ghost d0 = depth as nat;
        let t = rest.remove(0);
        proof {
            assert(rest.deep_view() =~= rest0.drop_first());
            assert(t@ == rest0.first());
        }
        depth = next_depth(&t, depth);
        if is_break(&t, depth) {
            clauses.push(Clause { body, sep: t });
            body = Vec::new();
            proof {
                let head = ClauseView { body: body0, sep: rest0.first() };
                assert(clauses.deep_view() =~= clauses0.push(head));
                assert(body.deep_view() =~= Seq::<TokenView>::empty());
                assert(spec_split_scan(rest0, body0, d0) == seq![head] + spec_split_scan(
                    rest0.drop_first(),
                    Seq::empty(),
                    depth as nat,
                ));
                assert(clauses0.push(head) =~= clauses0 + seq![head]);
                assert((clauses0 + seq![head]) + spec_split_scan(
                    rest0.drop_first(),
                    Seq::empty(),
                    depth as nat,
                ) =~= clauses0 + (seq![head] + spec_split_scan(
                    rest0.drop_first(),
                    Seq::empty(),
                    depth as nat,
                )));
            }
        } else {
            body.push(t);
            proof {
                assert(body.deep_view() =~= body0.push(rest0.first()));
            }
        }
    }
    if body.len() > 0 {
        let sep = synthetic_period();
        proof {
            let head = ClauseView { body: body.deep_view(), sep: spec_synthetic_period() };
            assert(spec_split_scan(rest.deep_view(), body.deep_view(), depth as nat) =~= seq![head]);
        }
        let ghost clauses0 = clauses.deep_view();
        let ghost head = ClauseView { body: body.deep_view(), sep: spec_synthetic_period() };
        clauses.push(Clause { body, sep });
        proof {
            assert(clauses.deep_view() =~= clauses0.push(head));
            assert(clauses0.push(head) =~= clauses0 + seq![head]);
        }
    } else {
        proof {
            assert(spec_split_scan(rest.deep_view(), body.deep_view(), depth as nat) =~= Seq::<
                ClauseView,
            >::empty());
            assert(clauses.deep_view() + Seq::<ClauseView>::empty() =~= clauses.deep_view());
        }
    }
    clauses
}

} // verus!
