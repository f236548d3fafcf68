use vstd::prelude::*;

verus! {

/// Sub-category of a postpositional particle, as far as the register rules
/// need to distinguish them.
#[derive(Clone, Copy, Debug, PartialEq, Eq, Structural)]
pub enum Postpositional {
    /// A sentence-final particle.
    End,
    /// A supplementary/parallel sentence-final particle.
    SupplementaryParallelEnd,
    /// A conjunction particle.
    Conjunction,
    /// Any other postpositional particle.
    Plain,
}

/// Sub-category of a symbol token.
#[derive(Clone, Copy, Debug, PartialEq, Eq, Structural)]
pub enum Symbol {
    Period,
    Comma,
    OpenParen,
    CloseParen,
    Plain,
}

/// Word class of a token, with the sub-categories the clause rules read.
#[derive(Clone, Copy, Debug, PartialEq, Eq, Structural)]
pub enum WordClass {
    Noun,
    Verb,
    Adjective,
    AuxiliaryVerb,
    Postpositional(Postpositional),
    Symbol(Symbol),
    Other,
}

/// Inflection paradigm of a word: the class that governs how its grammatical
/// forms are derived. The transformers dispatch on a handful of these; the
/// rest are carried through to the inflection adapter unchanged.
#[derive(Clone, Copy, Debug, PartialEq, Eq, Structural)]
pub enum ConjKind {
    GodanKaI,
    GodanKaSokuon,
    GodanGa,
    GodanSa,
    GodanTa,
    GodanNa,
    GodanBa,
    GodanMa,
    GodanRa,
    GodanRaAru,
    GodanWaSokuon,
    GodanWaU,
    Ichidan,
    IchidanRu,
    KahenKuru,
    SahenSuru,
    SahenSuruConnected,
    SahenZuruConnected,
    AdjectiveAuo,
    AdjectiveI,
    AdjectiveIi,
    SpecialDa,
    SpecialTa,
    SpecialDesu,
    SpecialMasu,
    SpecialNai,
    SpecialTai,
    SpecialNu,
    Immutable,
    /// A word that does not inflect at all (symbols, most particles).
    Uninflected,
}

/// A grammatical form slot: the inflected shape a word currently has, or the
/// destination shape a conversion is asked for.
#[derive(Clone, Copy, Debug, PartialEq, Eq, Structural)]
pub enum ConjForm {
    Basic,
    Negative,
    NegativeU,
    Continuous,
    ContinuousTa,
    ContinuousDe,
    Hypothetical,
    Imperative,
    /// A word that does not inflect has no form.
    Uninflected,
}

/// Inflection info of a token: its paradigm and the form it currently stands in.
#[derive(Clone, Copy, Debug, PartialEq, Eq, Structural)]
pub struct Inflection {
    pub kind: ConjKind,
    pub form: ConjForm,
}

/// One classified unit of morphological analysis, as the tokenizer hands it
/// over. Produced once, read-only thereafter.
pub struct Token {
    /// The text as it stands in the input.
    pub surface: String,
    /// The dictionary (base) form.
    pub basic: String,
    pub wordclass: WordClass,
    pub inflection: Inflection,
    pub reading: String,
    pub pronunciation: String,
    /// Byte offset of the surface in the source text.
    pub start: usize,
}

/// Mathematical model of a token: every string as a sequence of characters.
pub struct TokenView {
    pub surface: Seq<char>,
    pub basic: Seq<char>,
    pub wordclass: WordClass,
    pub inflection: Inflection,
    pub reading: Seq<char>,
    pub pronunciation: Seq<char>,
    pub start: usize,
}

impl View for Token {
    type V = TokenView;

    open spec fn view(&self) -> TokenView {
        TokenView {
            surface: self.surface@,
            basic: self.basic@,
            wordclass: self.wordclass,
            inflection: self.inflection,
            reading: self.reading@,
            pronunciation: self.pronunciation@,
            start: self.start,
        }
    }
}

impl DeepView for Token {
    type V = TokenView;

    open spec fn deep_view(&self) -> TokenView {
        self@
    }
}

/// The two fatal failures of the polite transformation.
#[derive(Clone, Copy, Debug, PartialEq, Eq, Structural)]
pub enum TransformError {
    /// The copula table has no entry for the requested (lemma, slot) pairing.
    UnsupportedCopulaPairing,
    /// The inflection adapter has no rule for a conversion that a
    /// suffix-construction rule assumes to exist.
    UnsupportedConjugation,
}

/// Whether a string equals a literal, compared by contents.
pub fn str_is(s: &String, lit: &str) -> (r: bool)
    ensures
        r == (s@ == lit@),
{
    let owned: String = lit.to_owned();
    *s == owned
}

/// The mathematical value of a fallible transformation result.
pub open spec fn result_chars(r: Result<String, TransformError>) -> Result<
    Seq<char>,
    TransformError,
> {
    match r {
        Ok(s) => Ok(s@),
        Err(e) => Err(e),
    }
}

/// Whether a token is a sentence-final particle, the class that is peeled
/// from a clause tail before the predicate is rewritten.
pub open spec fn is_end_particle(t: TokenView) -> bool {
    ||| t.wordclass == WordClass::Postpositional(Postpositional::End)
    ||| t.wordclass == WordClass::Postpositional(Postpositional::SupplementaryParallelEnd)
}

/// The surfaces of a token sequence, concatenated in order.
pub open spec fn concat_surfaces(ts: Seq<TokenView>) -> Seq<char>
    decreases ts.len(),
{
    if ts.len() == 0 {
        Seq::empty()
    } else {
        concat_surfaces(ts.drop_last()) + ts.last().surface
    }
}

/// Whether `prefix` is an initial segment of `s`.
pub open spec fn starts_with(s: Seq<char>, prefix: Seq<char>) -> bool {
    prefix.len() <= s.len() && s.take(prefix.len() as int) == prefix
}

/// An initial segment survives appending on the right.
pub proof fn lemma_starts_with_extend(s: Seq<char>, t: Seq<char>, prefix: Seq<char>)
    requires
        starts_with(s, prefix),
    ensures
        starts_with(s + t, prefix),
{
    assert((s + t).take(prefix.len() as int) =~= s.take(prefix.len() as int));
}

/// Every sequence is an initial segment of itself.
pub proof fn lemma_starts_with_refl(s: Seq<char>)
    ensures
        starts_with(s, s),
{
    assert(s.take(s.len() as int) =~= s);
}

/// An initial segment survives appending twice on the right.
pub proof fn lemma_starts_with_extend2(s: Seq<char>, t1: Seq<char>, t2: Seq<char>, prefix: Seq<char>)
    requires
        starts_with(s, prefix),
    ensures
        starts_with(s + t1 + t2, prefix),
{
    lemma_starts_with_extend(s, t1, prefix);
    lemma_starts_with_extend(s + t1, t2, prefix);
}

/// An initial segment survives appending three times on the right.
pub proof fn lemma_starts_with_extend3(
    s: Seq<char>,
    t1: Seq<char>,
    t2: Seq<char>,
    t3: Seq<char>,
    prefix: Seq<char>,
)
    requires
        starts_with(s, prefix),
    ensures
        starts_with(s + t1 + t2 + t3, prefix),
{
    lemma_starts_with_extend2(s, t1, t2, prefix);
    lemma_starts_with_extend(s + t1 + t2, t3, prefix);
}

/// Whether a token carries none of the lemmas the predicate rules dispatch
/// on: the transformers re-emit such a token, they never rewrite it.
pub open spec fn spec_plain_lemma(t: TokenView) -> bool {
    &&& t.basic != "です"@
    &&& t.basic != "ます"@
    &&& t.basic != "だ"@
    &&& t.basic != "ある"@
    &&& t.basic != "ない"@
    &&& t.basic != "た"@
    &&& t.basic != "う"@
    &&& t.basic != "ん"@
    &&& t.basic != "で"@
}

/// Appending one token appends exactly its surface.
pub proof fn lemma_concat_surfaces_push(ts: Seq<TokenView>, t: TokenView)
    ensures
        concat_surfaces(ts.push(t)) == concat_surfaces(ts) + t.surface,
{
    assert(ts.push(t).drop_last() =~= ts);
}

/// Concatenation of surfaces distributes over concatenation of sequences.
pub proof fn lemma_concat_surfaces_add(xs: Seq<TokenView>, ys: Seq<TokenView>)
    ensures
        concat_surfaces(xs + ys) == concat_surfaces(xs) + concat_surfaces(ys),
    decreases ys.len(),
{
    if ys.len() == 0 {
        assert(xs + ys =~= xs);
        assert(concat_surfaces(xs) + concat_surfaces(ys) =~= concat_surfaces(xs));
    } else {
        lemma_concat_surfaces_add(xs, ys.drop_last());
        assert((xs + ys).drop_last() =~= xs + ys.drop_last());
        assert((xs + ys).last() == ys.last());
        assert(concat_surfaces(xs) + (concat_surfaces(ys.drop_last()) + ys.last().surface)
            =~= (concat_surfaces(xs) + concat_surfaces(ys.drop_last())) + ys.last().surface);
    }
}

/// The surfaces of an initial token span are an initial segment of the
/// surfaces of the whole span.
pub proof fn lemma_concat_surfaces_prefix(ts: Seq<TokenView>, i: int)
    requires
        0 <= i <= ts.len(),
    ensures
        starts_with(concat_surfaces(ts), concat_surfaces(ts.take(i))),
{
    assert(ts =~= ts.take(i) + ts.skip(i));
    lemma_concat_surfaces_add(ts.take(i), ts.skip(i));
    let p = concat_surfaces(ts.take(i));
    assert((p + concat_surfaces(ts.skip(i))).take(p.len() as int) =~= p);
}

} // verus!
