use vstd::prelude::*;
use crate::token::ConjForm;
use crate::token::ConjKind;
use crate::token::Token;
use crate::token::TokenView;

verus! {

/// The morphological tokenizer, an external collaborator: it turns raw text
/// into the ordered, classified tokens the core works on. A morphological
/// analyzer is deterministic, so its behaviour is modelled by the spec
/// function `spec_parse` that each implementation defines for itself.
pub trait Tokenizer {
    /// The tokens this tokenizer produces for a text.
    spec fn spec_parse(&self, text: Seq<char>) -> Seq<TokenView>;

    /// Tokenize a text, covering the entire input in original order.
    fn parse(&self, text: &str) -> (r: Vec<Token>)
        ensures
            r.deep_view() == self.spec_parse(text@),
    ;
}

/// The inflection-table engine, an external collaborator: it converts a
/// word's surface between grammatical forms given its inflection paradigm.
/// The engine is deterministic, so its behaviour is modelled by the spec
/// function `spec_convert` that each implementation defines for itself.
pub trait InflectionAdapter {
    /// The conversion table: what `convert` returns, `None` standing for a
    /// conversion the engine has no rule for.
    spec fn spec_convert(
        &self,
        surface: Seq<char>,
        kind: ConjKind,
        from: ConjForm,
        to: ConjForm,
    ) -> Option<Seq<char>>;

    /// Convert `surface` from form `from` to form `to` under paradigm `kind`;
    /// fails exactly where no rule exists for that triple.
    fn convert(&self, surface: &str, kind: ConjKind, from: ConjForm, to: ConjForm) -> (r: Option<
        String,
    >)
        ensures
            match r {
                Some(s) => self.spec_convert(surface@, kind, from, to) == Some(s@),
                None => self.spec_convert(surface@, kind, from, to) is None,
            },
    ;
}

} // verus!
