use vstd::prelude::*;
use crate::peel::lemma_ends_len_bound;
use crate::peel::lemma_ends_len_le;
use crate::peel::spec_ends_len;
use crate::peel::spec_peel_ends;
use crate::peel::spec_peel_rest;
use crate::peel::surfaces_string;
use crate::peel::take_ends;
use crate::ports::InflectionAdapter;
use crate::token::str_is;
use crate::splitter::Clause;
use crate::splitter::ClauseView;
use crate::token::concat_surfaces;
use crate::token::lemma_concat_surfaces_prefix;
use crate::token::lemma_starts_with_extend2;
use crate::token::lemma_starts_with_extend3;
use crate::token::lemma_starts_with_refl;
use crate::token::result_chars;
use crate::token::spec_plain_lemma;
use crate::token::starts_with;
use crate::token::ConjForm;
use crate::token::ConjKind;
use crate::token::Token;
use crate::token::TokenView;
use crate::token::TransformError;
use crate::token::WordClass;

verus! {

/// The copula table: the polite copula form selected for a requested target
/// slot. Any pairing outside the table is an unsupported copula pairing.
pub open spec fn spec_copula(word: Seq<char>, slot: ConjForm) -> Option<Seq<char>> {
    if word == "です"@ {
        match slot {
            ConjForm::Basic => Some("です"@),
            ConjForm::NegativeU => Some("でしょ"@),
            _ => None,
        }
    } else if word == "ます"@ {
        match slot {
            ConjForm::Basic => Some("ます"@),
            ConjForm::Negative => Some("ませ"@),
            ConjForm::NegativeU => Some("ましょ"@),
            _ => None,
        }
    } else {
        None
    }
}

/// Select the copula form for the requested target slot from the copula table.
pub fn copula(word: &str, slot: ConjForm) -> (r: Option<String>)
    ensures
        match r {
            Some(s) => spec_copula(word@, slot) == Some(s@),
            None => spec_copula(word@, slot) is None,
        },
{
    let w: String = word.to_owned();
    if str_is(&w, "です") {
        match slot {
            ConjForm::Basic => Some("です".to_owned()),
            ConjForm::NegativeU => Some("でしょ".to_owned()),
            _ => None,
        }
    } else if str_is(&w, "ます") {
        match slot {
            ConjForm::Basic => Some("ます".to_owned()),
            ConjForm::Negative => Some("ませ".to_owned()),
            ConjForm::NegativeU => Some("ましょ".to_owned()),
            _ => None,
        }
    } else {
        None
    }
}

/// The continuative construction: the stem a plain verb form takes before
/// the polite auxiliary. Dispatches on the inflection paradigm:
/// - a suru-compound stem uses the negative-form conversion (a workaround
///   for a tokenizer quirk);
/// - a zuru-compound stem strips the two-character suffix of its base form
///   and appends the continuative syllable;
/// - the single-row "ru" paradigm passes its base form through unchanged, a
///   known unresolved gap kept as it stands;
/// - the nai/tai auxiliary-adjective paradigms use the continuative-de form;
/// - every other paradigm uses the plain continuative form.
pub open spec fn spec_continuous<A: InflectionAdapter>(a: &A, t: TokenView) -> Option<Seq<char>> {
    match t.inflection.kind {
        ConjKind::SahenSuruConnected => a.spec_convert(
            t.surface,
            t.inflection.kind,
            t.inflection.form,
            ConjForm::Negative,
        ),
        ConjKind::SahenZuruConnected => if t.basic.len() >= 2 {
            Some(t.basic.take(t.basic.len() - 2) + "じ"@)
        } else {
            None
        },
        ConjKind::IchidanRu => Some(t.basic),
        ConjKind::SpecialNai | ConjKind::SpecialTai => a.spec_convert(
            t.surface,
            t.inflection.kind,
            t.inflection.form,
            ConjForm::ContinuousDe,
        ),
        _ => a.spec_convert(t.surface, t.inflection.kind, t.inflection.form, ConjForm::Continuous),
    }
}

/// Build the continuative stem of a verb token through the inflection
/// adapter; `None` is the fatal adapter failure.
pub fn continuous<A: InflectionAdapter>(a: &A, t: &Token) -> (r: Option<String>)
    ensures
        match r {
            Some(s) => spec_continuous(a, t@) == Some(s@),
            None => spec_continuous(a, t@) is None,
        },
{
    match t.inflection.kind {
        ConjKind::SahenSuruConnected => a.convert(
            t.surface.as_str(),
            t.inflection.kind,
            t.inflection.form,
            ConjForm::Negative,
        ),
        ConjKind::SahenZuruConnected => {
            let n = t.basic.as_str().unicode_len();
            if n >= 2 {
                let stem = t.basic.as_str().substring_char(0, n - 2).to_owned();
                Some(stem.concat("じ"))
            } else {
                None
            }
        },
        ConjKind::IchidanRu => Some(t.basic.as_str().to_owned()),
        ConjKind::SpecialNai | ConjKind::SpecialTai => a.convert(
            t.surface.as_str(),
            t.inflection.kind,
            t.inflection.form,
            ConjForm::ContinuousDe,
        ),
        _ => a.convert(
            t.surface.as_str(),
            t.inflection.kind,
            t.inflection.form,
            ConjForm::Continuous,
        ),
    }
}

/// The polite rendering of a clause body at a requested target slot: peel
/// the trailing sentence-final particles, rewrite the predicate head by the
/// first matching rule, and reattach the particles in their original order.
pub open spec fn spec_polite<A: InflectionAdapter>(
    a: &A,
    morphs: Seq<TokenView>,
    target: ConjForm,
) -> Result<Seq<char>, TransformError>
    decreases morphs.len(),
    via spec_polite_decreases::<A>
{
    let rest = spec_peel_rest(morphs);
    let ends = spec_peel_ends(morphs);
    if rest.len() == 0 {
        Ok(ends)
    } else {
        let last = rest.last();
        let body = rest.drop_last();
        if last.basic == "です"@ || last.basic == "ます"@ {
            // Already polite: pass through unchanged.
            Ok(concat_surfaces(body) + last.surface + ends)
        } else if last.wordclass == WordClass::AuxiliaryVerb && last.basic == "だ"@ {
            // The plain copula becomes the polite copula.
            match spec_copula("です"@, target) {
                Some(c) => Ok(concat_surfaces(body) + c + ends),
                None => Err(TransformError::UnsupportedCopulaPairing),
            }
        } else if last.wordclass == WordClass::Verb {
            // A verb is rewritten to its continuative stem plus the polite
            // auxiliary at the current slot.
            match spec_continuous(a, last) {
                Some(stem) => match spec_copula("ます"@, target) {
                    Some(c) => Ok(concat_surfaces(body) + stem + c + ends),
                    None => Err(TransformError::UnsupportedCopulaPairing),
                },
                None => Err(TransformError::UnsupportedConjugation),
            }
        } else if last.wordclass == WordClass::AuxiliaryVerb && last.basic == "ある"@ {
            if body.len() > 0 {
                let prior = body.last();
                let front = body.drop_last();
                if prior.wordclass == WordClass::AuxiliaryVerb && prior.basic == "だ"@ {
                    // The plain copula-aru pair collapses into the polite copula.
                    match spec_copula("です"@, target) {
                        Some(c) => Ok(concat_surfaces(front) + c + ends),
                        None => Err(TransformError::UnsupportedCopulaPairing),
                    }
                } else {
                    match spec_copula("ます"@, target) {
                        Some(c) => Ok(concat_surfaces(front) + prior.surface + "あり"@ + c + ends),
                        None => Err(TransformError::UnsupportedCopulaPairing),
                    }
                }
            } else {
                match spec_copula("ます"@, target) {
                    Some(c) => Ok("あり"@ + c + ends),
                    None => Err(TransformError::UnsupportedCopulaPairing),
                }
            }
        } else if (last.wordclass == WordClass::AuxiliaryVerb || last.wordclass
            == WordClass::Adjective) && last.basic == "ない"@ {
            if body.len() > 0 {
                let prior = body.last();
                let front = body.drop_last();
                if prior.wordclass == WordClass::AuxiliaryVerb && prior.basic == "で"@ {
                    Ok(concat_surfaces(front) + "ではありません"@ + ends)
                } else if prior.wordclass == WordClass::Verb {
                    match spec_continuous(a, prior) {
                        Some(stem) => Ok(concat_surfaces(front) + stem + "ません"@ + ends),
                        None => Err(TransformError::UnsupportedConjugation),
                    }
                } else {
                    Ok(concat_surfaces(front) + prior.surface + "ありません"@ + ends)
                }
            } else {
                Ok("ありません"@ + ends)
            }
        } else if last.wordclass == WordClass::AuxiliaryVerb && last.basic == "た"@ {
            if body.len() > 0 {
                let prior = body.last();
                let front = body.drop_last();
                if prior.basic == "です"@ || prior.basic == "ます"@ {
                    Ok(concat_surfaces(front) + prior.surface + "た"@ + ends)
                } else if prior.wordclass == WordClass::Verb {
                    match spec_continuous(a, prior) {
                        Some(stem) => Ok(concat_surfaces(front) + stem + "ました"@ + ends),
                        None => Err(TransformError::UnsupportedConjugation),
                    }
                } else if prior.wordclass == WordClass::AuxiliaryVerb && prior.basic == "だ"@ {
                    Ok(concat_surfaces(front) + "でした"@ + ends)
                } else if prior.wordclass == WordClass::AuxiliaryVerb && prior.basic == "ある"@ {
                    Ok(concat_surfaces(front) + "した"@ + ends)
                } else if prior.basic == "ない"@ {
                    // Render the clause up to and including the negative at
                    // the basic slot, then append the polite past copula.
                    match spec_polite(a, body, ConjForm::Basic) {
                        Ok(inner) => Ok(inner + "でした"@ + ends),
                        Err(e) => Err(e),
                    }
                } else {
                    Ok(concat_surfaces(front) + prior.surface + "たです"@ + ends)
                }
            } else {
                Ok("たです"@ + ends)
            }
        } else if last.basic == "う"@ {
            // Volitional: render the remainder at the negative-u slot.
            match spec_polite(a, body, ConjForm::NegativeU) {
                Ok(inner) => Ok(inner + "う"@ + ends),
                Err(e) => Err(e),
            }
        } else if last.basic == "ん"@ {
            // Contracted negative: render the remainder at the negative slot.
            match spec_polite(a, body, ConjForm::Negative) {
                Ok(inner) => Ok(inner + "ん"@ + ends),
                Err(e) => Err(e),
            }
        } else {
            Ok(concat_surfaces(body) + last.surface + "です"@ + ends)
        }
    }
}

#[via_fn]
proof fn spec_polite_decreases<A: InflectionAdapter>(
    a: &A,
    morphs: Seq<TokenView>,
    target: ConjForm,
) {
    lemma_ends_len_le(morphs);
}

/// Rewrite a clause body (its separator already removed) into polite
/// register at the requested target slot.
pub fn into_polite<A: InflectionAdapter>(a: &A, morphs: Vec<Token>, target: ConjForm) -> (r: Result<
    String,
    TransformError,
>)
    ensures
        result_chars(r) == spec_polite(a, morphs.deep_view(), target),
    decreases morphs.deep_view().len(),
{
    let ghost orig = morphs.deep_view();
    proof {
        lemma_ends_len_le(orig);
    }
    let mut morphs = morphs;
    let ends = take_ends(&mut morphs);
    let ghost rest = spec_peel_rest(orig);
    let last = match morphs.pop() {
        Some(last) => last,
        None => {
            return Ok(ends);
        },
    };
    proof {
        assert(morphs.deep_view() =~= rest.drop_last());
        assert(last@ == rest.last());
    }
    let ghost body = rest.drop_last();
    if str_is(&last.basic, "です") || str_is(&last.basic, "ます") {
        let mut s = surfaces_string(&morphs);
        s.append(last.surface.as_str());
        s.append(ends.as_str());
        Ok(s)
    } else if last.wordclass == WordClass::AuxiliaryVerb && str_is(&last.basic, "だ") {
        match copula("です", target) {
            Some(c) => {
                let mut s = surfaces_string(&morphs);
                s.append(c.as_str());
                s.append(ends.as_str());
                Ok(s)
            },
            None => Err(TransformError::UnsupportedCopulaPairing),
        }
    } else if last.wordclass == WordClass::Verb {
        match continuous(a, &last) {
            Some(stem) => match copula("ます", target) {
                Some(c) => {
                    let mut s = surfaces_string(&morphs);
                    s.append(stem.as_str());
                    s.append(c.as_str());
                    s.append(ends.as_str());
                    Ok(s)
                },
                None => Err(TransformError::UnsupportedCopulaPairing),
            },
            None => Err(TransformError::UnsupportedConjugation),
        }
    } else if last.wordclass == WordClass::AuxiliaryVerb && str_is(&last.basic, "ある") {
        match morphs.pop() {
            Some(prior) => {
                proof {
                    assert(morphs.deep_view() =~= body.drop_last());
                    assert(prior@ == body.last());
                }
                if prior.wordclass == WordClass::AuxiliaryVerb && str_is(&prior.basic, "だ") {
                    match copula("です", target) {
                        Some(c) => {
                            let mut s = surfaces_string(&morphs);
                            s.append(c.as_str());
                            s.append(ends.as_str());
                            Ok(s)
                        },
                        None => Err(TransformError::UnsupportedCopulaPairing),
                    }
                } else {
                    match copula("ます", target) {
                        Some(c) => {
                            let mut s = surfaces_string(&morphs);
                            s.append(prior.surface.as_str());
                            s.append("あり");
                            s.append(c.as_str());
                            s.append(ends.as_str());
                            Ok(s)
                        },
                        None => Err(TransformError::UnsupportedCopulaPairing),
                    }
                }
            },
            None => {
                match copula("ます", target) {
                    Some(c) => {
                        let mut s = "あり".to_owned();
                        s.append(c.as_str());
                        s.append(ends.as_str());
                        Ok(s)
                    },
                    None => Err(TransformError::UnsupportedCopulaPairing),
                }
            },
        }
    } else if (last.wordclass == WordClass::AuxiliaryVerb || last.wordclass == WordClass::Adjective)
        && str_is(&last.basic, "ない") {
        match morphs.pop() {
            Some(prior) => {
                proof {
                    assert(morphs.deep_view() =~= body.drop_last());
                    assert(prior@ == body.last());
                }
                if prior.wordclass == WordClass::AuxiliaryVerb && str_is(&prior.basic, "で") {
                    let mut s = surfaces_string(&morphs);
                    s.append("ではありません");
                    s.append(ends.as_str());
                    Ok(s)
                } else if prior.wordclass == WordClass::Verb {
                    match continuous(a, &prior) {
                        Some(stem) => {
                            let mut s = surfaces_string(&morphs);
                            s.append(stem.as_str());
                            s.append("ません");
                            s.append(ends.as_str());
                            Ok(s)
                        },
                        None => Err(TransformError::UnsupportedConjugation),
                    }
                } else {
                    let mut s = surfaces_string(&morphs);
                    s.append(prior.surface.as_str());
                    s.append("ありません");
                    s.append(ends.as_str());
                    Ok(s)
                }
            },
            None => {
                let mut s = "ありません".to_owned();
                s.append(ends.as_str());
                Ok(s)
            },
        }
    } else if last.wordclass == WordClass::AuxiliaryVerb && str_is(&last.basic, "た") {
        match morphs.pop() {
            Some(prior) => {
                proof {
                    assert(morphs.deep_view() =~= body.drop_last());
                    assert(prior@ == body.last());
                }
                if str_is(&prior.basic, "です") || str_is(&prior.basic, "ます") {
                    let mut s = surfaces_string(&morphs);
                    s.append(prior.surface.as_str());
                    s.append("た");
                    s.append(ends.as_str());
                    Ok(s)
                } else if prior.wordclass == WordClass::Verb {
                    match continuous(a, &prior) {
                        Some(stem) => {
                            let mut s = surfaces_string(&morphs);
                            s.append(stem.as_str());
                            s.append("ました");
                            s.append(ends.as_str());
                            Ok(s)
                        },
                        None => Err(TransformError::UnsupportedConjugation),
                    }
                } else if prior.wordclass == WordClass::AuxiliaryVerb && str_is(&prior.basic, "だ")
                {
                    let mut s = surfaces_string(&morphs);
                    s.append("でした");
                    s.append(ends.as_str());
                    Ok(s)
                } else if prior.wordclass == WordClass::AuxiliaryVerb && str_is(
                    &prior.basic,
                    "ある",
                ) {
                    let mut s = surfaces_string(&morphs);
                    s.append("した");
                    s.append(ends.as_str());
                    Ok(s)
                } else if str_is(&prior.basic, "ない") {
                    morphs.push(prior);
                    proof {
                        assert(morphs.deep_view() =~= body);
                    }
                    match into_polite(a, morphs, ConjForm::Basic) {
                        Ok(inner) => {
                            let mut s = inner;
                            s.append("でした");
                            s.append(ends.as_str());
                            Ok(s)
                        },
                        Err(e) => Err(e),
                    }
                } else {
                    let mut s = surfaces_string(&morphs);
                    s.append(prior.surface.as_str());
                    s.append("たです");
                    s.append(ends.as_str());
                    Ok(s)
                }
            },
            None => {
                let mut s = "たです".to_owned();
                s.append(ends.as_str());
                Ok(s)
            },
        }
    } else if str_is(&last.basic, "う") {
        match into_polite(a, morphs, ConjForm::NegativeU) {
            Ok(inner) => {
                let mut s = inner;
                s.append("う");
                s.append(ends.as_str());
                Ok(s)
            },
            Err(e) => Err(e),
        }
    } else if str_is(&last.basic, "ん") {
        match into_polite(a, morphs, ConjForm::Negative) {
            Ok(inner) => {
                let mut s = inner;
                s.append("ん");
                s.append(ends.as_str());
                Ok(s)
            },
            Err(e) => Err(e),
        }
    } else {
        let mut s = surfaces_string(&morphs);
        s.append(last.surface.as_str());
        s.append("です");
        s.append(ends.as_str());
        Ok(s)
    }
}

/// Idempotence: a clause body whose predicate head is already polite (the
/// last token before the sentence-final particles has the polite-copula or
/// polite-auxiliary lemma) is rendered with no content change at any target
/// slot: the result is exactly the body's own text, the particles standing
/// where they stood.
pub proof fn lemma_polite_idempotent<A: InflectionAdapter>(
    a: &A,
    morphs: Seq<TokenView>,
    target: ConjForm,
)
    requires
        spec_peel_rest(morphs).len() > 0,
        spec_peel_rest(morphs).last().basic == "です"@ || spec_peel_rest(morphs).last().basic
            == "ます"@,
    ensures
        spec_polite(a, morphs, target) == Ok::<Seq<char>, TransformError>(concat_surfaces(morphs)),
{
    lemma_ends_len_le(morphs);
    let rest = spec_peel_rest(morphs);
    let tail = morphs.skip(morphs.len() - spec_ends_len(morphs));
    assert(morphs =~= rest + tail);
    crate::token::lemma_concat_surfaces_add(rest, tail);
    assert(concat_surfaces(rest) == concat_surfaces(rest.drop_last()) + rest.last().surface);
    assert((concat_surfaces(rest.drop_last()) + rest.last().surface) + concat_surfaces(tail)
        =~= concat_surfaces(rest.drop_last()) + rest.last().surface + concat_surfaces(tail));
}

/// Idempotence at the clause level: a clause whose predicate is already
/// polite is emitted verbatim, body and separator alike.
pub proof fn lemma_clause_polite_idempotent<A: InflectionAdapter>(
    a: &A,
    c: ClauseView,
    target: ConjForm,
)
    requires
        spec_peel_rest(c.body).len() > 0,
        spec_peel_rest(c.body).last().basic == "です"@ || spec_peel_rest(c.body).last().basic
            == "ます"@,
    ensures
        spec_clause_polite(a, c, target) == Ok::<Seq<char>, TransformError>(
            concat_surfaces(crate::splitter::clause_tokens(c)),
        ),
{
    lemma_polite_idempotent(a, c.body, target);
    crate::token::lemma_concat_surfaces_push(c.body, c.sep);
}

/// Parenthetical invariant, polite side: everything up to and including a
/// closing parenthesis token is emitted verbatim, as an initial segment of
/// the rendering. A token span wholly inside balanced parentheses ends
/// before such a token, and the splitter never declares a break inside
/// parentheses, so a quoted span passes through the polite transformer
/// unchanged.
pub proof fn lemma_polite_parenthetical<A: InflectionAdapter>(
    a: &A,
    morphs: Seq<TokenView>,
    target: ConjForm,
    j: int,
)
    requires
        0 <= j < morphs.len(),
        morphs[j].wordclass == WordClass::Symbol(crate::token::Symbol::CloseParen),
        spec_plain_lemma(morphs[j]),
    ensures
        spec_polite(a, morphs, target) matches Ok(out) ==> starts_with(
            out,
            concat_surfaces(morphs.take(j + 1)),
        ),
    decreases morphs.len(),
{
    lemma_ends_len_le(morphs);
    lemma_ends_len_bound(morphs, j);
    let rest = spec_peel_rest(morphs);
    let ends = spec_peel_ends(morphs);
    let u = j + 1;
    let prefix = concat_surfaces(morphs.take(u));
    let n = rest.len() as int;
    let last = rest.last();
    let body = rest.drop_last();
    assert(rest.take(u) =~= morphs.take(u));
    if u == n {
        // The closing parenthesis is itself the predicate head; only the
        // default rule can match it, which re-emits its surface.
        assert(last == morphs[j]);
        assert(rest.take(u) =~= rest);
        lemma_starts_with_refl(concat_surfaces(body) + last.surface);
        lemma_starts_with_extend2(concat_surfaces(body) + last.surface, "です"@, ends, prefix);
    } else {
        assert(u <= body.len());
        assert(body.take(u) =~= morphs.take(u));
        assert(body[j] == morphs[j]);
        lemma_concat_surfaces_prefix(body, u);
        if last.basic == "です"@ || last.basic == "ます"@ {
            lemma_starts_with_extend2(concat_surfaces(body), last.surface, ends, prefix);
        } else if last.wordclass == WordClass::AuxiliaryVerb && last.basic == "だ"@ {
            if let Some(c) = spec_copula("です"@, target) {
                lemma_starts_with_extend2(concat_surfaces(body), c, ends, prefix);
            }
        } else if last.wordclass == WordClass::Verb {
            if let Some(stem) = spec_continuous(a, last) {
                if let Some(c) = spec_copula("ます"@, target) {
                    lemma_starts_with_extend3(concat_surfaces(body), stem, c, ends, prefix);
                }
            }
        } else if last.wordclass == WordClass::AuxiliaryVerb && last.basic == "ある"@ {
            let prior = body.last();
            let front = body.drop_last();
            if prior.wordclass == WordClass::AuxiliaryVerb && prior.basic == "だ"@ {
                if u > front.len() {
                    assert(body.last() == body[j]);
                }
                assert(front.take(u) =~= morphs.take(u));
                lemma_concat_surfaces_prefix(front, u);
                if let Some(c) = spec_copula("です"@, target) {
                    lemma_starts_with_extend2(concat_surfaces(front), c, ends, prefix);
                }
            } else {
                if u <= front.len() {
                    assert(front.take(u) =~= morphs.take(u));
                    lemma_concat_surfaces_prefix(front, u);
                    if let Some(c) = spec_copula("ます"@, target) {
                        lemma_starts_with_extend2(concat_surfaces(front), prior.surface, "あり"@, prefix);
                        lemma_starts_with_extend2(
                            concat_surfaces(front) + prior.surface + "あり"@,
                            c,
                            ends,
                            prefix,
                        );
                    }
                } else {
                    assert(prior == body[j]);
                    assert(body.take(u) =~= body);
                    lemma_starts_with_refl(concat_surfaces(front) + prior.surface);
                    if let Some(c) = spec_copula("ます"@, target) {
                        lemma_starts_with_extend3(
                            concat_surfaces(front) + prior.surface,
                            "あり"@,
                            c,
                            ends,
                            prefix,
                        );
                    }
                }
            }
        } else if (last.wordclass == WordClass::AuxiliaryVerb || last.wordclass
            == WordClass::Adjective) && last.basic == "ない"@ {
            let prior = body.last();
            let front = body.drop_last();
            if prior.wordclass == WordClass::AuxiliaryVerb && prior.basic == "で"@ {
                if u > front.len() {
                    assert(body.last() == body[j]);
                }
                assert(front.take(u) =~= morphs.take(u));
                lemma_concat_surfaces_prefix(front, u);
                lemma_starts_with_extend2(concat_surfaces(front), "ではありません"@, ends, prefix);
            } else if prior.wordclass == WordClass::Verb {
                if u > front.len() {
                    assert(body.last() == body[j]);
                }
                assert(front.take(u) =~= morphs.take(u));
                lemma_concat_surfaces_prefix(front, u);
                if let Some(stem) = spec_continuous(a, prior) {
                    lemma_starts_with_extend3(concat_surfaces(front), stem, "ません"@, ends, prefix);
                }
            } else {
                if u <= front.len() {
                    assert(front.take(u) =~= morphs.take(u));
                    lemma_concat_surfaces_prefix(front, u);
                    lemma_starts_with_extend3(
                        concat_surfaces(front),
                        prior.surface,
                        "ありません"@,
                        ends,
                        prefix,
                    );
                } else {
                    assert(prior == body[j]);
                    assert(body.take(u) =~= body);
                    lemma_starts_with_refl(concat_surfaces(front) + prior.surface);
                    lemma_starts_with_extend2(
                        concat_surfaces(front) + prior.surface,
                        "ありません"@,
                        ends,
                        prefix,
                    );
                }
            }
        } else if last.wordclass == WordClass::AuxiliaryVerb && last.basic == "た"@ {
            let prior = body.last();
            let front = body.drop_last();
            if prior.basic == "です"@ || prior.basic == "ます"@ {
                if u > front.len() {
                    assert(body.last() == body[j]);
                }
                assert(front.take(u) =~= morphs.take(u));
                lemma_concat_surfaces_prefix(front, u);
                lemma_starts_with_extend3(concat_surfaces(front), prior.surface, "た"@, ends, prefix);
            } else if prior.wordclass == WordClass::Verb {
                if u > front.len() {
                    assert(body.last() == body[j]);
                }
                assert(front.take(u) =~= morphs.take(u));
                lemma_concat_surfaces_prefix(front, u);
                if let Some(stem) = spec_continuous(a, prior) {
                    lemma_starts_with_extend3(concat_surfaces(front), stem, "ました"@, ends, prefix);
                }
            } else if prior.wordclass == WordClass::AuxiliaryVerb && prior.basic == "だ"@ {
                if u > front.len() {
                    assert(body.last() == body[j]);
                }
                assert(front.take(u) =~= morphs.take(u));
                lemma_concat_surfaces_prefix(front, u);
                lemma_starts_with_extend2(concat_surfaces(front), "でした"@, ends, prefix);
            } else if prior.wordclass == WordClass::AuxiliaryVerb && prior.basic == "ある"@ {
                if u > front.len() {
                    assert(body.last() == body[j]);
                }
                assert(front.take(u) =~= morphs.take(u));
                lemma_concat_surfaces_prefix(front, u);
                lemma_starts_with_extend2(concat_surfaces(front), "した"@, ends, prefix);
            } else if prior.basic == "ない"@ {
                if u > front.len() {
                    assert(body.last() == body[j]);
                }
                lemma_polite_parenthetical(a, body, ConjForm::Basic, j);
                if let Ok(inner) = spec_polite(a, body, ConjForm::Basic) {
                    lemma_starts_with_extend2(inner, "でした"@, ends, prefix);
                }
            } else {
                if u <= front.len() {
                    assert(front.take(u) =~= morphs.take(u));
                    lemma_concat_surfaces_prefix(front, u);
                    lemma_starts_with_extend3(
                        concat_surfaces(front),
                        prior.surface,
                        "たです"@,
                        ends,
                        prefix,
                    );
                } else {
                    assert(prior == body[j]);
                    assert(body.take(u) =~= body);
                    lemma_starts_with_refl(concat_surfaces(front) + prior.surface);
                    lemma_starts_with_extend2(
                        concat_surfaces(front) + prior.surface,
                        "たです"@,
                        ends,
                        prefix,
                    );
                }
            }
        } else if last.basic == "う"@ {
            lemma_polite_parenthetical(a, body, ConjForm::NegativeU, j);
            if let Ok(inner) = spec_polite(a, body, ConjForm::NegativeU) {
                lemma_starts_with_extend2(inner, "う"@, ends, prefix);
            }
        } else if last.basic == "ん"@ {
            lemma_polite_parenthetical(a, body, ConjForm::Negative, j);
            if let Ok(inner) = spec_polite(a, body, ConjForm::Negative) {
                lemma_starts_with_extend2(inner, "ん"@, ends, prefix);
            }
        } else {
            lemma_starts_with_extend3(concat_surfaces(body), last.surface, "です"@, ends, prefix);
        }
    }
}

/// The polite rendering of a whole clause: its rewritten body followed by
/// its separator's surface.
pub open spec fn spec_clause_polite<A: InflectionAdapter>(
    a: &A,
    c: ClauseView,
    target: ConjForm,
) -> Result<Seq<char>, TransformError> {
    match spec_polite(a, c.body, target) {
        Ok(s) => Ok(s + c.sep.surface),
        Err(e) => Err(e),
    }
}

/// Rewrite one clause into polite register at the requested target slot.
pub fn clause_into_polite<A: InflectionAdapter>(a: &A, c: Clause, target: ConjForm) -> (r: Result<
    String,
    TransformError,
>)
    ensures
        result_chars(r) == spec_clause_polite(a, c@, target),
{
    let Clause { body, sep } = c;
    match into_polite(a, body, target) {
        Ok(mut s) => {
            s.append(sep.surface.as_str());
            Ok(s)
        },
        Err(e) => Err(e),
    }
}

} // verus!

