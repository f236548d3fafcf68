use vstd::prelude::*;
use crate::peel::lemma_ends_len_bound;
use crate::peel::lemma_ends_len_le;
use crate::peel::spec_peel_ends;
use crate::peel::spec_peel_rest;
use crate::peel::surfaces_string;
use crate::peel::take_ends;
use crate::ports::InflectionAdapter;
use crate::token::str_is;
use crate::splitter::Clause;
use crate::splitter::ClauseView;
use crate::token::concat_surfaces;
use crate::token::lemma_concat_surfaces_prefix;
use crate::token::lemma_starts_with_extend;
use crate::token::lemma_starts_with_extend2;
use crate::token::lemma_starts_with_extend3;
use crate::token::lemma_starts_with_refl;
use crate::token::spec_plain_lemma;
use crate::token::starts_with;
use crate::token::ConjForm;
use crate::token::ConjKind;
use crate::token::Token;
use crate::token::TokenView;
use crate::token::WordClass;

verus! {

/// Convert a surface through the adapter to the first target slot in the
/// list that the adapter has a rule for; an exhausted list falls back to the
/// surface unchanged (the plain transformer tolerates unknown paradigms).
pub open spec fn spec_fix<A: InflectionAdapter>(
    a: &A,
    orig: Seq<char>,
    kind: ConjKind,
    from: ConjForm,
    forms: Seq<ConjForm>,
) -> Seq<char>
    decreases forms.len(),
{
    if forms.len() == 0 {
        orig
    } else {
        match a.spec_convert(orig, kind, from, forms.first()) {
            Some(s) => s,
            None => spec_fix(a, orig, kind, from, forms.drop_first()),
        }
    }
}

/// Convert a surface to the first supported slot of the target-slot list,
/// falling back to the surface unchanged.
pub fn fix<A: InflectionAdapter>(
    a: &A,
    orig: &str,
    kind: ConjKind,
    from: ConjForm,
    forms: &Vec<ConjForm>,
) -> (r: String)
    ensures
        r@ == spec_fix(a, orig@, kind, from, forms@),
{
    let mut i: usize = 0;
    proof {
        assert(forms@.skip(0) =~= forms@);
    }
    while i < forms.len()
        invariant
            i <= forms@.len(),
            spec_fix(a, orig@, kind, from, forms@) == spec_fix(
                a,
                orig@,
                kind,
                from,
                forms@.skip(i as int),
            ),
        decreases forms@.len() - i,
    {
        proof {
            assert(forms@.skip(i as int).first() == forms@[i as int]);
            assert(forms@.skip(i as int).drop_first() =~= forms@.skip(i + 1));
        }
        match a.convert(orig, kind, from, forms[i]) {
            Some(s) => {
                return s;
            },
            None => {},
        }
        i = i + 1;
    }
    proof {
        assert(forms@.skip(forms@.len() as int) =~= Seq::<ConjForm>::empty());
    }
    orig.to_owned()
}

/// The plain rendering of a clause body for a target-slot list: peel the
/// trailing sentence-final particles, undo the polite predicate by the first
/// matching rule (the approximate structural inverse of the polite rules),
/// and reattach the particles in their original order. The generic default
/// rule tolerates adapter failure by keeping the surface, so the plain
/// rendering is total.
pub open spec fn spec_impolite<A: InflectionAdapter>(
    a: &A,
    morphs: Seq<TokenView>,
    forms: Seq<ConjForm>,
) -> Seq<char>
    decreases morphs.len(),
    via spec_impolite_decreases::<A>
{
    let rest = spec_peel_rest(morphs);
    let ends = spec_peel_ends(morphs);
    if rest.len() == 0 {
        ends
    } else {
        let last = rest.last();
        let body = rest.drop_last();
        if last.wordclass == WordClass::AuxiliaryVerb && last.basic == "だ"@ {
            // Already a plain copula: only the requested slot may change it.
            concat_surfaces(body) + spec_fix(a, "だ"@, ConjKind::SpecialDa, ConjForm::Basic, forms)
                + ends
        } else if last.wordclass == WordClass::AuxiliaryVerb && last.basic == "ある"@ {
            concat_surfaces(body) + spec_fix(
                a,
                "ある"@,
                ConjKind::GodanRaAru,
                ConjForm::Basic,
                forms,
            ) + ends
        } else if last.wordclass == WordClass::AuxiliaryVerb && last.basic == "です"@ {
            if body.len() > 0 {
                let prior = body.last();
                let front = body.drop_last();
                if prior.wordclass == WordClass::Adjective {
                    // The polite copula after an adjective is simply dropped.
                    concat_surfaces(front) + prior.surface + ends
                } else if prior.wordclass == WordClass::AuxiliaryVerb && prior.basic == "た"@ {
                    concat_surfaces(front) + spec_fix(
                        a,
                        "た"@,
                        ConjKind::SpecialTa,
                        ConjForm::Basic,
                        forms,
                    ) + ends
                } else {
                    // Become the plain copula, unless particles follow: then drop.
                    concat_surfaces(front) + prior.surface + (if ends.len() == 0 {
                        spec_fix(a, "だ"@, ConjKind::SpecialDa, ConjForm::Basic, forms)
                    } else {
                        Seq::empty()
                    }) + ends
                }
            } else {
                (if ends.len() == 0 {
                    spec_fix(a, "だ"@, ConjKind::SpecialDa, ConjForm::Basic, forms)
                } else {
                    Seq::empty()
                }) + ends
            }
        } else if last.wordclass == WordClass::AuxiliaryVerb && last.basic == "ます"@ {
            if body.len() > 0 {
                let prior = body.last();
                let front = body.drop_last();
                if prior.wordclass == WordClass::Verb {
                    // Drop the polite auxiliary and return the verb to the
                    // requested slot from its recorded paradigm and form.
                    concat_surfaces(front) + spec_fix(
                        a,
                        prior.surface,
                        prior.inflection.kind,
                        prior.inflection.form,
                        forms,
                    ) + ends
                } else {
                    concat_surfaces(front) + prior.surface + ends
                }
            } else {
                ends
            }
        } else if last.wordclass == WordClass::AuxiliaryVerb && last.basic == "う"@ {
            if body.len() > 0 {
                let prior = body.last();
                let front = body.drop_last();
                if prior.wordclass == WordClass::AuxiliaryVerb && prior.basic == "です"@ {
                    concat_surfaces(front) + "だろう"@ + ends
                } else if prior.wordclass == WordClass::AuxiliaryVerb && prior.basic == "ます"@ {
                    if front.len() > 0 {
                        let further = front.last();
                        let front2 = front.drop_last();
                        concat_surfaces(front2) + spec_fix(
                            a,
                            further.surface,
                            further.inflection.kind,
                            further.inflection.form,
                            seq![ConjForm::NegativeU, ConjForm::Negative],
                        ) + "う"@ + ends
                    } else {
                        "う"@ + ends
                    }
                } else {
                    concat_surfaces(front) + prior.surface + "う"@ + ends
                }
            } else {
                "う"@ + ends
            }
        } else if last.wordclass == WordClass::AuxiliaryVerb && last.basic == "ん"@ {
            if body.len() > 0 {
                let prior = body.last();
                let front = body.drop_last();
                if prior.wordclass == WordClass::AuxiliaryVerb && prior.basic == "ます"@ {
                    if front.len() > 0 {
                        let further = front.last();
                        let front2 = front.drop_last();
                        if further.wordclass == WordClass::Verb && further.basic == "ある"@ {
                            concat_surfaces(front2) + spec_fix(
                                a,
                                "ない"@,
                                ConjKind::SpecialNai,
                                ConjForm::Basic,
                                forms,
                            ) + ends
                        } else {
                            concat_surfaces(front2) + spec_fix(
                                a,
                                further.surface,
                                further.inflection.kind,
                                further.inflection.form,
                                seq![ConjForm::Negative],
                            ) + spec_fix(a, "ない"@, ConjKind::SpecialNai, ConjForm::Basic, forms)
                                + ends
                        }
                    } else {
                        ends
                    }
                } else {
                    concat_surfaces(front) + spec_fix(
                        a,
                        prior.surface,
                        prior.inflection.kind,
                        prior.inflection.form,
                        seq![ConjForm::Negative],
                    ) + spec_fix(a, "ない"@, ConjKind::SpecialNai, ConjForm::Basic, forms) + ends
                }
            } else {
                spec_fix(a, "ない"@, ConjKind::SpecialNai, ConjForm::Basic, forms) + ends
            }
        } else if last.wordclass == WordClass::AuxiliaryVerb && last.basic == "た"@ {
            if body.len() > 0 {
                let prior = body.last();
                let front = body.drop_last();
                if prior.wordclass == WordClass::AuxiliaryVerb && prior.basic == "です"@ {
                    // Render the remainder (polite copula kept in place) at
                    // the continuative slots, then append the plain past.
                    spec_impolite(a, body, seq![ConjForm::ContinuousTa, ConjForm::Continuous])
                        + spec_fix(a, "た"@, ConjKind::SpecialTa, ConjForm::Basic, forms) + ends
                } else if prior.wordclass == WordClass::AuxiliaryVerb && prior.basic == "ます"@ {
                    if front.len() > 0 {
                        let further = front.last();
                        let front2 = front.drop_last();
                        concat_surfaces(front2) + spec_fix(
                            a,
                            further.surface,
                            further.inflection.kind,
                            further.inflection.form,
                            seq![ConjForm::ContinuousTa, ConjForm::Continuous],
                        ) + spec_fix(a, "た"@, ConjKind::SpecialTa, ConjForm::Basic, forms) + ends
                    } else {
                        spec_fix(a, "た"@, ConjKind::SpecialTa, ConjForm::Basic, forms) + ends
                    }
                } else {
                    concat_surfaces(front) + spec_fix(
                        a,
                        prior.surface,
                        prior.inflection.kind,
                        prior.inflection.form,
                        seq![ConjForm::ContinuousTa, ConjForm::Continuous],
                    ) + spec_fix(a, "た"@, ConjKind::SpecialTa, ConjForm::Basic, forms) + ends
                }
            } else {
                spec_fix(a, "た"@, ConjKind::SpecialTa, ConjForm::Basic, forms) + ends
            }
        } else {
            // Generic default: the predicate's own paradigm and form decide.
            concat_surfaces(body) + spec_fix(
                a,
                last.surface,
                last.inflection.kind,
                last.inflection.form,
                forms,
            ) + ends
        }
    }
}

#[via_fn]
proof fn spec_impolite_decreases<A: InflectionAdapter>(
    a: &A,
    morphs: Seq<TokenView>,
    forms: Seq<ConjForm>,
) {
    lemma_ends_len_le(morphs);
}

/// Rewrite a clause body (its separator already removed) into plain register
/// for the requested target-slot list.
#[verifier::rlimit(60)]
pub fn into_impolite<A: InflectionAdapter>(
    a: &A,
    morphs: Vec<Token>,
    forms: &Vec<ConjForm>,
) -> (r: String)
    ensures
        r@ == spec_impolite(a, morphs.deep_view(), forms@),
    decreases morphs.deep_view().len(),
{
    let ghost orig = morphs.deep_view();
    proof {
        lemma_ends_len_le(orig);
    }
    let mut morphs = morphs;
    let ends = take_ends(&mut morphs);
    let ghost rest = spec_peel_rest(orig);
    let last = match morphs.pop() {
        Some(last) => last,
        None => {
            return ends;
        },
    };
    proof {
        assert(morphs.deep_view() =~= rest.drop_last());
        assert(last@ == rest.last());
    }
    let ghost body = rest.drop_last();
    if last.wordclass == WordClass::AuxiliaryVerb && str_is(&last.basic, "だ") {
        let mut s = surfaces_string(&morphs);
        let f = fix(a, "だ", ConjKind::SpecialDa, ConjForm::Basic, forms);
        s.append(f.as_str());
        s.append(ends.as_str());
        s
    } else if last.wordclass == WordClass::AuxiliaryVerb && str_is(&last.basic, "ある") {
        let mut s = surfaces_string(&morphs);
        let f = fix(a, "ある", ConjKind::GodanRaAru, ConjForm::Basic, forms);
        s.append(f.as_str());
        s.append(ends.as_str());
        s
    } else if last.wordclass == WordClass::AuxiliaryVerb && str_is(&last.basic, "です") {
        match morphs.pop() {
            Some(prior) => {
                proof {
                    assert(morphs.deep_view() =~= body.drop_last());
                    assert(prior@ == body.last());
                }
                if prior.wordclass == WordClass::Adjective {
                    let mut s = surfaces_string(&morphs);
                    s.append(prior.surface.as_str());
                    s.append(ends.as_str());
                    s
                } else if prior.wordclass == WordClass::AuxiliaryVerb && str_is(&prior.basic, "た")
                {
                    let mut s = surfaces_string(&morphs);
                    let f = fix(a, "た", ConjKind::SpecialTa, ConjForm::Basic, forms);
                    s.append(f.as_str());
                    s.append(ends.as_str());
                    s
                } else {
                    let mut s = surfaces_string(&morphs);
                    s.append(prior.surface.as_str());
                    if ends.as_str().unicode_len() == 0 {
                        let f = fix(a, "だ", ConjKind::SpecialDa, ConjForm::Basic, forms);
                        s.append(f.as_str());
                    }
                    s.append(ends.as_str());
                    proof {
                        if ends@.len() != 0 {
                            assert(concat_surfaces(morphs.deep_view()) + prior@.surface + Seq::<
                                char,
                            >::empty() =~= concat_surfaces(morphs.deep_view()) + prior@.surface);
                        }
                    }
                    s
                }
            },
            None => {
                let mut s = String::new();
                if ends.as_str().unicode_len() == 0 {
                    let f = fix(a, "だ", ConjKind::SpecialDa, ConjForm::Basic, forms);
                    s.append(f.as_str());
                }
                s.append(ends.as_str());
                proof {
                    if ends@.len() != 0 {
                        assert(Seq::<char>::empty() + Seq::<char>::empty() =~= Seq::<
                            char,
                        >::empty());
                    }
                }
                s
            },
        }
    } else if last.wordclass == WordClass::AuxiliaryVerb && str_is(&last.basic, "ます") {
        match morphs.pop() {
            Some(prior) => {
                proof {
                    assert(morphs.deep_view() =~= body.drop_last());
                    assert(prior@ == body.last());
                }
                if prior.wordclass == WordClass::Verb {
                    let mut s = surfaces_string(&morphs);
                    let f = fix(
                        a,
                        prior.surface.as_str(),
                        prior.inflection.kind,
                        prior.inflection.form,
                        forms,
                    );
                    s.append(f.as_str());
                    s.append(ends.as_str());
                    s
                } else {
                    let mut s = surfaces_string(&morphs);
                    s.append(prior.surface.as_str());
                    s.append(ends.as_str());
                    s
                }
            },
            None => ends,
        }
    } else if last.wordclass == WordClass::AuxiliaryVerb && str_is(&last.basic, "う") {
        match morphs.pop() {
            Some(prior) => {
                proof {
                    assert(morphs.deep_view() =~= body.drop_last());
                    assert(prior@ == body.last());
                }
                let ghost front = body.drop_last();
                if prior.wordclass == WordClass::AuxiliaryVerb && str_is(&prior.basic, "です") {
                    let mut s = surfaces_string(&morphs);
                    s.append("だろう");
                    s.append(ends.as_str());
                    s
                } else if prior.wordclass == WordClass::AuxiliaryVerb && str_is(&prior.basic, "ます")
                {
                    match morphs.pop() {
                        Some(further) => {
                            proof {
                                assert(morphs.deep_view() =~= front.drop_last());
                                assert(further@ == front.last());
                            }
                            let mut slots: Vec<ConjForm> = Vec::new();
                            slots.push(ConjForm::NegativeU);
                            slots.push(ConjForm::Negative);
                            proof {
                                assert(slots@ =~= seq![ConjForm::NegativeU, ConjForm::Negative]);
                            }
                            let mut s = surfaces_string(&morphs);
                            let f = fix(
                                a,
                                further.surface.as_str(),
                                further.inflection.kind,
                                further.inflection.form,
                                &slots,
                            );
                            s.append(f.as_str());
                            s.append("う");
                            s.append(ends.as_str());
                            s
                        },
                        None => {
                            let mut s = "う".to_owned();
                            s.append(ends.as_str());
                            s
                        },
                    }
                } else {
                    let mut s = surfaces_string(&morphs);
                    s.append(prior.surface.as_str());
                    s.append("う");
                    s.append(ends.as_str());
                    s
                }
            },
            None => {
                let mut s = "う".to_owned();
                s.append(ends.as_str());
                s
            },
        }
    } else if last.wordclass == WordClass::AuxiliaryVerb && str_is(&last.basic, "ん") {
        match morphs.pop() {
            Some(prior) => {
                proof {
                    assert(morphs.deep_view() =~= body.drop_last());
                    assert(prior@ == body.last());
                }
                let ghost front = body.drop_last();
                if prior.wordclass == WordClass::AuxiliaryVerb && str_is(&prior.basic, "ます") {
                    match morphs.pop() {
                        Some(further) => {
                            proof {
                                assert(morphs.deep_view() =~= front.drop_last());
                                assert(further@ == front.last());
                            }
                            if further.wordclass == WordClass::Verb && str_is(&further.basic, "ある")
                            {
                                let mut s = surfaces_string(&morphs);
                                let f = fix(a, "ない", ConjKind::SpecialNai, ConjForm::Basic, forms);
                                s.append(f.as_str());
                                s.append(ends.as_str());
                                s
                            } else {
                                let mut slots: Vec<ConjForm> = Vec::new();
                                slots.push(ConjForm::Negative);
                                proof {
                                    assert(slots@ =~= seq![ConjForm::Negative]);
                                }
                                let mut s = surfaces_string(&morphs);
                                let f1 = fix(
                                    a,
                                    further.surface.as_str(),
                                    further.inflection.kind,
                                    further.inflection.form,
                                    &slots,
                                );
                                s.append(f1.as_str());
                                let f2 = fix(a, "ない", ConjKind::SpecialNai, ConjForm::Basic, forms);
                                s.append(f2.as_str());
                                s.append(ends.as_str());
                                s
                            }
                        },
                        None => ends,
                    }
                } else {
                    let mut slots: Vec<ConjForm> = Vec::new();
                    slots.push(ConjForm::Negative);
                    proof {
                        assert(slots@ =~= seq![ConjForm::Negative]);
                    }
                    let mut s = surfaces_string(&morphs);
                    let f1 = fix(
                        a,
                        prior.surface.as_str(),
                        prior.inflection.kind,
                        prior.inflection.form,
                        &slots,
                    );
                    s.append(f1.as_str());
                    let f2 = fix(a, "ない", ConjKind::SpecialNai, ConjForm::Basic, forms);
                    s.append(f2.as_str());
                    s.append(ends.as_str());
                    s
                }
            },
            None => {
                let mut s = fix(a, "ない", ConjKind::SpecialNai, ConjForm::Basic, forms);
                s.append(ends.as_str());
                s
            },
        }
    } else if last.wordclass == WordClass::AuxiliaryVerb && str_is(&last.basic, "た") {
        match morphs.pop() {
            Some(prior) => {
                proof {
                    assert(morphs.deep_view() =~= body.drop_last());
                    assert(prior@ == body.last());
                }
                let ghost front = body.drop_last();
                if prior.wordclass == WordClass::AuxiliaryVerb && str_is(&prior.basic, "です") {
                    morphs.push(prior);
                    proof {
                        assert(morphs.deep_view() =~= body);
                    }
                    let mut slots: Vec<ConjForm> = Vec::new();
                    slots.push(ConjForm::ContinuousTa);
                    slots.push(ConjForm::Continuous);
                    proof {
                        assert(slots@ =~= seq![ConjForm::ContinuousTa, ConjForm::Continuous]);
                    }
                    let mut s = into_impolite(a, morphs, &slots);
                    let f = fix(a, "た", ConjKind::SpecialTa, ConjForm::Basic, forms);
                    s.append(f.as_str());
                    s.append(ends.as_str());
                    s
                } else if prior.wordclass == WordClass::AuxiliaryVerb && str_is(&prior.basic, "ます")
                {
                    match morphs.pop() {
                        Some(further) => {
                            proof {
                                assert(morphs.deep_view() =~= front.drop_last());
                                assert(further@ == front.last());
                            }
                            let mut slots: Vec<ConjForm> = Vec::new();
                            slots.push(ConjForm::ContinuousTa);
                            slots.push(ConjForm::Continuous);
                            proof {
                                assert(slots@ =~= seq![
                                    ConjForm::ContinuousTa,
                                    ConjForm::Continuous,
                                ]);
                            }
                            let mut s = surfaces_string(&morphs);
                            let f1 = fix(
                                a,
                                further.surface.as_str(),
                                further.inflection.kind,
                                further.inflection.form,
                                &slots,
                            );
                            s.append(f1.as_str());
                            let f2 = fix(a, "た", ConjKind::SpecialTa, ConjForm::Basic, forms);
                            s.append(f2.as_str());
                            s.append(ends.as_str());
                            s
                        },
                        None => {
                            let mut s = fix(a, "た", ConjKind::SpecialTa, ConjForm::Basic, forms);
                            s.append(ends.as_str());
                            s
                        },
                    }
                } else {
                    let mut slots: Vec<ConjForm> = Vec::new();
                    slots.push(ConjForm::ContinuousTa);
                    slots.push(ConjForm::Continuous);
                    proof {
                        assert(slots@ =~= seq![ConjForm::ContinuousTa, ConjForm::Continuous]);
                    }
                    let mut s = surfaces_string(&morphs);
                    let f1 = fix(
                        a,
                        prior.surface.as_str(),
                        prior.inflection.kind,
                        prior.inflection.form,
                        &slots,
                    );
                    s.append(f1.as_str());
                    let f2 = fix(a, "た", ConjKind::SpecialTa, ConjForm::Basic, forms);
                    s.append(f2.as_str());
                    s.append(ends.as_str());
                    s
                }
            },
            None => {
                let mut s = fix(a, "た", ConjKind::SpecialTa, ConjForm::Basic, forms);
                s.append(ends.as_str());
                s
            },
        }
    } else {
        let mut s = surfaces_string(&morphs);
        let f = fix(
            a,
            last.surface.as_str(),
            last.inflection.kind,
            last.inflection.form,
            forms,
        );
        s.append(f.as_str());
        s.append(ends.as_str());
        s
    }
}

/// A surface the adapter has no rule for, at any target slot, comes out of
/// the slot-list fallback unchanged.
proof fn lemma_fix_unconvertible<A: InflectionAdapter>(
    a: &A,
    orig: Seq<char>,
    kind: ConjKind,
    from: ConjForm,
    forms: Seq<ConjForm>,
)
    requires
        forall|to: ConjForm| a.spec_convert(orig, kind, from, to) is None,
    ensures
        spec_fix(a, orig, kind, from, forms) == orig,
    decreases forms.len(),
{
    if forms.len() > 0 {
        lemma_fix_unconvertible(a, orig, kind, from, forms.drop_first());
    }
}

/// Parenthetical invariant, plain side: everything up to and including a
/// closing parenthesis token is emitted verbatim, as an initial segment of
/// the rendering. A symbol token carries no inflection paradigm, and an
/// inflection engine has no rule for the empty paradigm, so the generic
/// fallback keeps its surface; every other rule re-emits it unchanged.
pub proof fn lemma_impolite_parenthetical<A: InflectionAdapter>(
    a: &A,
    morphs: Seq<TokenView>,
    forms: Seq<ConjForm>,
    j: int,
)
    requires
        0 <= j < morphs.len(),
        morphs[j].wordclass == WordClass::Symbol(crate::token::Symbol::CloseParen),
        spec_plain_lemma(morphs[j]),
        morphs[j].inflection.kind == ConjKind::Uninflected,
        forall|s: Seq<char>, from: ConjForm, to: ConjForm|
            a.spec_convert(s, ConjKind::Uninflected, from, to) is None,
    ensures
        starts_with(spec_impolite(a, morphs, forms), concat_surfaces(morphs.take(j + 1))),
    decreases morphs.len(),
{
    lemma_ends_len_le(morphs);
    lemma_ends_len_bound(morphs, j);
    let rest = spec_peel_rest(morphs);
    let ends = spec_peel_ends(morphs);
    let u = j + 1;
    let prefix = concat_surfaces(morphs.take(u));
    let n = rest.len() as int;
    let last = rest.last();
    let body = rest.drop_last();
    assert(rest.take(u) =~= morphs.take(u));
    if u == n {
        // The closing parenthesis is itself the predicate head; only the
        // generic default rule can match it, and its conversion fails.
        assert(last == morphs[j]);
        assert(rest.take(u) =~= rest);
        lemma_fix_unconvertible(
            a,
            last.surface,
            last.inflection.kind,
            last.inflection.form,
            forms,
        );
        lemma_starts_with_refl(
            concat_surfaces(body) + spec_fix(
                a,
                last.surface,
                last.inflection.kind,
                last.inflection.form,
                forms,
            ),
        );
        lemma_starts_with_extend(
            concat_surfaces(body) + spec_fix(
                a,
                last.surface,
                last.inflection.kind,
                last.inflection.form,
                forms,
            ),
            ends,
            prefix,
        );
    } else {
        assert(u <= body.len());
        assert(body.take(u) =~= morphs.take(u));
        assert(body[j] == morphs[j]);
        lemma_concat_surfaces_prefix(body, u);
        if last.wordclass == WordClass::AuxiliaryVerb && last.basic == "だ"@ {
            lemma_starts_with_extend2(
                concat_surfaces(body),
                spec_fix(a, "だ"@, ConjKind::SpecialDa, ConjForm::Basic, forms),
                ends,
                prefix,
            );
        } else if last.wordclass == WordClass::AuxiliaryVerb && last.basic == "ある"@ {
            lemma_starts_with_extend2(
                concat_surfaces(body),
                spec_fix(a, "ある"@, ConjKind::GodanRaAru, ConjForm::Basic, forms),
                ends,
                prefix,
            );
        } else if last.wordclass == WordClass::AuxiliaryVerb && last.basic == "です"@ {
            let prior = body.last();
            let front = body.drop_last();
            if prior.wordclass == WordClass::Adjective {
                if u > front.len() {
                    assert(body.last() == body[j]);
                }
                assert(front.take(u) =~= morphs.take(u));
                lemma_concat_surfaces_prefix(front, u);
                lemma_starts_with_extend2(concat_surfaces(front), prior.surface, ends, prefix);
            } else if prior.wordclass == WordClass::AuxiliaryVerb && prior.basic == "た"@ {
                if u > front.len() {
                    assert(body.last() == body[j]);
                }
                assert(front.take(u) =~= morphs.take(u));
                lemma_concat_surfaces_prefix(front, u);
                lemma_starts_with_extend2(
                    concat_surfaces(front),
                    spec_fix(a, "た"@, ConjKind::SpecialTa, ConjForm::Basic, forms),
                    ends,
                    prefix,
                );
            } else {
                let mid = if ends.len() == 0 {
                    spec_fix(a, "だ"@, ConjKind::SpecialDa, ConjForm::Basic, forms)
                } else {
                    Seq::<char>::empty()
                };
                if u <= front.len() {
                    assert(front.take(u) =~= morphs.take(u));
                    lemma_concat_surfaces_prefix(front, u);
                    lemma_starts_with_extend3(
                        concat_surfaces(front),
                        prior.surface,
                        mid,
                        ends,
                        prefix,
                    );
                } else {
                    assert(prior == body[j]);
                    assert(body.take(u) =~= body);
                    lemma_starts_with_refl(concat_surfaces(front) + prior.surface);
                    lemma_starts_with_extend2(
                        concat_surfaces(front) + prior.surface,
                        mid,
                        ends,
                        prefix,
                    );
                }
            }
        } else if last.wordclass == WordClass::AuxiliaryVerb && last.basic == "ます"@ {
            let prior = body.last();
            let front = body.drop_last();
            if prior.wordclass == WordClass::Verb {
                if u > front.len() {
                    assert(body.last() == body[j]);
                }
                assert(front.take(u) =~= morphs.take(u));
                lemma_concat_surfaces_prefix(front, u);
                lemma_starts_with_extend2(
                    concat_surfaces(front),
                    spec_fix(
                        a,
                        prior.surface,
                        prior.inflection.kind,
                        prior.inflection.form,
                        forms,
                    ),
                    ends,
                    prefix,
                );
            } else {
                if u <= front.len() {
                    assert(front.take(u) =~= morphs.take(u));
                    lemma_concat_surfaces_prefix(front, u);
                    lemma_starts_with_extend2(concat_surfaces(front), prior.surface, ends, prefix);
                } else {
                    assert(prior == body[j]);
                    assert(body.take(u) =~= body);
                    lemma_starts_with_refl(concat_surfaces(front) + prior.surface);
                    lemma_starts_with_extend(
                        concat_surfaces(front) + prior.surface,
                        ends,
                        prefix,
                    );
                }
            }
        } else if last.wordclass == WordClass::AuxiliaryVerb && last.basic == "う"@ {
            let prior = body.last();
            let front = body.drop_last();
            if prior.wordclass == WordClass::AuxiliaryVerb && prior.basic == "です"@ {
                if u > front.len() {
                    assert(body.last() == body[j]);
                }
                assert(front.take(u) =~= morphs.take(u));
                lemma_concat_surfaces_prefix(front, u);
                lemma_starts_with_extend2(concat_surfaces(front), "だろう"@, ends, prefix);
            } else if prior.wordclass == WordClass::AuxiliaryVerb && prior.basic == "ます"@ {
                if u > front.len() {
                    assert(body.last() == body[j]);
                }
                let further = front.last();
                let front2 = front.drop_last();
                let conv = spec_fix(
                    a,
                    further.surface,
                    further.inflection.kind,
                    further.inflection.form,
                    seq![ConjForm::NegativeU, ConjForm::Negative],
                );
                if u <= front2.len() {
                    assert(front2.take(u) =~= morphs.take(u));
                    lemma_concat_surfaces_prefix(front2, u);
                    lemma_starts_with_extend3(concat_surfaces(front2), conv, "う"@, ends, prefix);
                } else {
                    assert(further == front[j]);
                    assert(front.take(u) =~= front);
                    lemma_fix_unconvertible(
                        a,
                        further.surface,
                        further.inflection.kind,
                        further.inflection.form,
                        seq![ConjForm::NegativeU, ConjForm::Negative],
                    );
                    lemma_starts_with_refl(concat_surfaces(front2) + conv);
                    lemma_starts_with_extend2(
                        concat_surfaces(front2) + conv,
                        "う"@,
                        ends,
                        prefix,
                    );
                }
            } else {
                if u <= front.len() {
                    assert(front.take(u) =~= morphs.take(u));
                    lemma_concat_surfaces_prefix(front, u);
                    lemma_starts_with_extend3(
                        concat_surfaces(front),
                        prior.surface,
                        "う"@,
                        ends,
                        prefix,
                    );
                } else {
                    assert(prior == body[j]);
                    assert(body.take(u) =~= body);
                    lemma_starts_with_refl(concat_surfaces(front) + prior.surface);
                    lemma_starts_with_extend2(
                        concat_surfaces(front) + prior.surface,
                        "う"@,
                        ends,
                        prefix,
                    );
                }
            }
        } else if last.wordclass == WordClass::AuxiliaryVerb && last.basic == "ん"@ {
            let prior = body.last();
            let front = body.drop_last();
            if prior.wordclass == WordClass::AuxiliaryVerb && prior.basic == "ます"@ {
                if u > front.len() {
                    assert(body.last() == body[j]);
                }
                let further = front.last();
                let front2 = front.drop_last();
                if further.wordclass == WordClass::Verb && further.basic == "ある"@ {
                    if u > front2.len() {
                        assert(front.last() == front[j]);
                    }
                    assert(front2.take(u) =~= morphs.take(u));
                    lemma_concat_surfaces_prefix(front2, u);
                    lemma_starts_with_extend2(
                        concat_surfaces(front2),
                        spec_fix(a, "ない"@, ConjKind::SpecialNai, ConjForm::Basic, forms),
                        ends,
                        prefix,
                    );
                } else {
                    let conv = spec_fix(
                        a,
                        further.surface,
                        further.inflection.kind,
                        further.inflection.form,
                        seq![ConjForm::Negative],
                    );
                    let nai = spec_fix(a, "ない"@, ConjKind::SpecialNai, ConjForm::Basic, forms);
                    if u <= front2.len() {
                        assert(front2.take(u) =~= morphs.take(u));
                        lemma_concat_surfaces_prefix(front2, u);
                        lemma_starts_with_extend3(concat_surfaces(front2), conv, nai, ends, prefix);
                    } else {
                        assert(further == front[j]);
                        assert(front.take(u) =~= front);
                        lemma_fix_unconvertible(
                            a,
                            further.surface,
                            further.inflection.kind,
                            further.inflection.form,
                            seq![ConjForm::Negative],
                        );
                        lemma_starts_with_refl(concat_surfaces(front2) + conv);
                        lemma_starts_with_extend2(concat_surfaces(front2) + conv, nai, ends, prefix);
                    }
                }
            } else {
                let conv = spec_fix(
                    a,
                    prior.surface,
                    prior.inflection.kind,
                    prior.inflection.form,
                    seq![ConjForm::Negative],
                );
                let nai = spec_fix(a, "ない"@, ConjKind::SpecialNai, ConjForm::Basic, forms);
                if u <= front.len() {
                    assert(front.take(u) =~= morphs.take(u));
                    lemma_concat_surfaces_prefix(front, u);
                    lemma_starts_with_extend3(concat_surfaces(front), conv, nai, ends, prefix);
                } else {
                    assert(prior == body[j]);
                    assert(body.take(u) =~= body);
                    lemma_fix_unconvertible(
                        a,
                        prior.surface,
                        prior.inflection.kind,
                        prior.inflection.form,
                        seq![ConjForm::Negative],
                    );
                    lemma_starts_with_refl(concat_surfaces(front) + conv);
                    lemma_starts_with_extend2(concat_surfaces(front) + conv, nai, ends, prefix);
                }
            }
        } else if last.wordclass == WordClass::AuxiliaryVerb && last.basic == "た"@ {
            let prior = body.last();
            let front = body.drop_last();
            let ta = spec_fix(a, "た"@, ConjKind::SpecialTa, ConjForm::Basic, forms);
            if prior.wordclass == WordClass::AuxiliaryVerb && prior.basic == "です"@ {
                if u > front.len() {
                    assert(body.last() == body[j]);
                }
                lemma_impolite_parenthetical(
                    a,
                    body,
                    seq![ConjForm::ContinuousTa, ConjForm::Continuous],
                    j,
                );
                lemma_starts_with_extend2(
                    spec_impolite(a, body, seq![ConjForm::ContinuousTa, ConjForm::Continuous]),
                    ta,
                    ends,
                    prefix,
                );
            } else if prior.wordclass == WordClass::AuxiliaryVerb && prior.basic == "ます"@ {
                if u > front.len() {
                    assert(body.last() == body[j]);
                }
                let further = front.last();
                let front2 = front.drop_last();
                let conv = spec_fix(
                    a,
                    further.surface,
                    further.inflection.kind,
                    further.inflection.form,
                    seq![ConjForm::ContinuousTa, ConjForm::Continuous],
                );
                if u <= front2.len() {
                    assert(front2.take(u) =~= morphs.take(u));
                    lemma_concat_surfaces_prefix(front2, u);
                    lemma_starts_with_extend3(concat_surfaces(front2), conv, ta, ends, prefix);
                } else {
                    assert(further == front[j]);
                    assert(front.take(u) =~= front);
                    lemma_fix_unconvertible(
                        a,
                        further.surface,
                        further.inflection.kind,
                        further.inflection.form,
                        seq![ConjForm::ContinuousTa, ConjForm::Continuous],
                    );
                    lemma_starts_with_refl(concat_surfaces(front2) + conv);
                    lemma_starts_with_extend2(concat_surfaces(front2) + conv, ta, ends, prefix);
                }
            } else {
                let conv = spec_fix(
                    a,
                    prior.surface,
                    prior.inflection.kind,
                    prior.inflection.form,
                    seq![ConjForm::ContinuousTa, ConjForm::Continuous],
                );
                if u <= front.len() {
                    assert(front.take(u) =~= morphs.take(u));
                    lemma_concat_surfaces_prefix(front, u);
                    lemma_starts_with_extend3(concat_surfaces(front), conv, ta, ends, prefix);
                } else {
                    assert(prior == body[j]);
                    assert(body.take(u) =~= body);
                    lemma_fix_unconvertible(
                        a,
                        prior.surface,
                        prior.inflection.kind,
                        prior.inflection.form,
                        seq![ConjForm::ContinuousTa, ConjForm::Continuous],
                    );
                    lemma_starts_with_refl(concat_surfaces(front) + conv);
                    lemma_starts_with_extend2(concat_surfaces(front) + conv, ta, ends, prefix);
                }
            }
        } else {
            lemma_starts_with_extend2(
                concat_surfaces(body),
                spec_fix(a, last.surface, last.inflection.kind, last.inflection.form, forms),
                ends,
                prefix,
            );
        }
    }
}

/// The plain rendering of a whole clause: its rewritten body followed by its
/// separator's surface.
pub open spec fn spec_clause_impolite<A: InflectionAdapter>(
    a: &A,
    c: ClauseView,
    forms: Seq<ConjForm>,
) -> Seq<char> {
    spec_impolite(a, c.body, forms) + c.sep.surface
}

/// Rewrite one clause into plain register for the requested target-slot list.
pub fn clause_into_impolite<A: InflectionAdapter>(a: &A, c: Clause, forms: &Vec<ConjForm>) -> (r:
    String)
    ensures
        r@ == spec_clause_impolite(a, c@, forms@),
{
    let Clause { body, sep } = c;
    let mut s = into_impolite(a, body, forms);
    s.append(sep.surface.as_str());
    s
}

} // verus!
