use vstd::prelude::*;
use crate::ports::InflectionAdapter;
use crate::token::str_is;
use crate::token::ConjForm;
use crate::token::ConjKind;

verus! {

/// One conversion rule: for this surface, paradigm and source form, the
/// inflected surface at the target form.
pub struct ConversionRule {
    pub surface: String,
    pub kind: ConjKind,
    pub from: ConjForm,
    pub to: ConjForm,
    pub result: String,
}

/// Mathematical model of a conversion rule.
pub struct ConversionRuleView {
    pub surface: Seq<char>,
    pub kind: ConjKind,
    pub from: ConjForm,
    pub to: ConjForm,
    pub result: Seq<char>,
}

impl View for ConversionRule {
    type V = ConversionRuleView;

    open spec fn view(&self) -> ConversionRuleView {
        ConversionRuleView {
            surface: self.surface@,
            kind: self.kind,
            from: self.from,
            to: self.to,
            result: self.result@,
        }
    }
}

impl DeepView for ConversionRule {
    type V = ConversionRuleView;

    open spec fn deep_view(&self) -> ConversionRuleView {
        self@
    }
}

/// Whether a rule applies to a conversion request.
pub open spec fn rule_applies(
    r: ConversionRuleView,
    surface: Seq<char>,
    kind: ConjKind,
    from: ConjForm,
    to: ConjForm,
) -> bool {
    r.surface == surface && r.kind == kind && r.from == from && r.to == to
}

/// The result of the first applying rule, if any.
pub open spec fn spec_lookup(
    rules: Seq<ConversionRuleView>,
    surface: Seq<char>,
    kind: ConjKind,
    from: ConjForm,
    to: ConjForm,
) -> Option<Seq<char>>
    decreases rules.len(),
{
    if rules.len() == 0 {
        None
    } else if rule_applies(rules.first(), surface, kind, from, to) {
        Some(rules.first().result)
    } else {
        spec_lookup(rules.drop_first(), surface, kind, from, to)
    }
}

/// An inflection engine given as plain data: an ordered rule table, the
/// first applying rule deciding each conversion. It stands in for the
/// external inflection-table engine wherever the caller brings its own
/// conversion rules.
pub struct RuleTable {
    pub rules: Vec<ConversionRule>,
}

impl RuleTable {
    /// An empty table: every conversion fails.
    pub fn new() -> (r: RuleTable)
        ensures
            r.rules@.len() == 0,
    {
        RuleTable { rules: Vec::new() }
    }

    /// Append one rule.
    pub fn push_rule(&mut self, rule: ConversionRule)
        ensures
            final(self).rules@ == old(self).rules@.push(rule),
    {
        self.rules.push(rule);
    }
}

impl InflectionAdapter for RuleTable {
    open spec fn spec_convert(
        &self,
        surface: Seq<char>,
        kind: ConjKind,
        from: ConjForm,
        to: ConjForm,
    ) -> Option<Seq<char>> {
        spec_lookup(self.rules.deep_view(), surface, kind, from, to)
    }

    fn convert(&self, surface: &str, kind: ConjKind, from: ConjForm, to: ConjForm) -> (r: Option<
        String,
    >) {
        let ghost rules = self.rules.deep_view();
        let mut i: usize = 0;
        proof {
            assert(rules.skip(0) =~= rules);
        }
        while i < self.rules.len()
            invariant
                i <= rules.len(),
                rules == self.rules.deep_view(),
                rules.len() == self.rules@.len(),
                spec_lookup(rules, surface@, kind, from, to) == spec_lookup(
                    rules.skip(i as int),
                    surface@,
                    kind,
                    from,
                    to,
                ),
            decreases rules.len() - i,
        {
            proof {
                assert(rules.skip(i as int).first() == rules[i as int]);
                assert(rules.skip(i as int).drop_first() =~= rules.skip(i + 1));
                assert(rules[i as int] == self.rules@[i as int]@);
            }
            let rule = &self.rules[i];
            if str_is(&rule.surface, surface) && rule.kind == kind && rule.from == from && rule.to
                == to {
                return Some(rule.result.clone());
            }
            i = i + 1;
        }
        proof {
            assert(rules.skip(rules.len() as int) =~= Seq::<ConversionRuleView>::empty());
        }
        None
    }
}

} // verus!
