use teineigo::polite::clause_into_polite;
use teineigo::rules::{ConversionRule, RuleTable};
use teineigo::ports::Tokenizer;
use teineigo::splitter::Clause;
use teineigo::token::TokenView;
use vstd::seq::Seq;
use teineigo::sentence::{to_impolite_sentence, to_polite_sentence, tokens_to_impolite, tokens_to_polite};
use teineigo::token::{ConjForm, ConjKind, Inflection, Postpositional, Symbol, Token, TransformError, WordClass};

fn tok(surface: &str, basic: &str, wordclass: WordClass, kind: ConjKind, form: ConjForm) -> Token {
    Token {
        surface: surface.to_string(),
        basic: basic.to_string(),
        wordclass,
        inflection: Inflection { kind, form },
        reading: surface.to_string(),
        pronunciation: surface.to_string(),
        start: 0,
    }
}

fn noun(surface: &str) -> Token {
    tok(surface, surface, WordClass::Noun, ConjKind::Uninflected, ConjForm::Uninflected)
}

fn particle(surface: &str) -> Token {
    tok(
        surface,
        surface,
        WordClass::Postpositional(Postpositional::Plain),
        ConjKind::Uninflected,
        ConjForm::Uninflected,
    )
}

fn end_particle(surface: &str) -> Token {
    tok(
        surface,
        surface,
        WordClass::Postpositional(Postpositional::End),
        ConjKind::Uninflected,
        ConjForm::Uninflected,
    )
}

fn period() -> Token {
    tok("。", "。", WordClass::Symbol(Symbol::Period), ConjKind::Uninflected, ConjForm::Uninflected)
}

fn aux(surface: &str, basic: &str, kind: ConjKind, form: ConjForm) -> Token {
    tok(surface, basic, WordClass::AuxiliaryVerb, kind, form)
}

fn verb(surface: &str, basic: &str, kind: ConjKind, form: ConjForm) -> Token {
    tok(surface, basic, WordClass::Verb, kind, form)
}

fn adjective(surface: &str, basic: &str, kind: ConjKind, form: ConjForm) -> Token {
    tok(surface, basic, WordClass::Adjective, kind, form)
}

fn rule(surface: &str, kind: ConjKind, from: ConjForm, to: ConjForm, out: &str) -> ConversionRule {
    ConversionRule {
        surface: surface.to_string(),
        kind,
        from,
        to,
        result: out.to_string(),
    }
}

fn with(mut table: RuleTable, surface: &str, kind: ConjKind, from: ConjForm, to: ConjForm, out: &str) -> RuleTable {
    table.push_rule(rule(surface, kind, from, to, out));
    table
}

/// The conversion rules the round-trip scenarios rely on.
fn standard() -> RuleTable {
    let mut t = RuleTable::new();
    t.push_rule(rule("だ", ConjKind::SpecialDa, ConjForm::Basic, ConjForm::Basic, "だ"));
    t.push_rule(rule("た", ConjKind::SpecialTa, ConjForm::Basic, ConjForm::Basic, "た"));
    t.push_rule(rule("ない", ConjKind::SpecialNai, ConjForm::Basic, ConjForm::Basic, "ない"));
    t.push_rule(rule("ある", ConjKind::GodanRaAru, ConjForm::Basic, ConjForm::Basic, "ある"));
    t.push_rule(rule("しよ", ConjKind::SahenSuru, ConjForm::NegativeU, ConjForm::Continuous, "し"));
    t.push_rule(rule("し", ConjKind::SahenSuru, ConjForm::Continuous, ConjForm::NegativeU, "しよ"));
    t.push_rule(rule("許さ", ConjKind::GodanSa, ConjForm::Negative, ConjForm::Continuous, "許し"));
    t.push_rule(rule("許し", ConjKind::GodanSa, ConjForm::Continuous, ConjForm::Negative, "許さ"));
    t.push_rule(rule("行き", ConjKind::GodanKaI, ConjForm::Continuous, ConjForm::Basic, "行く"));
    t
}

/// A tokenizer that hands out a fixed analysis, as a test double for the
/// external morphological tokenizer.
struct FixedTokenizer {
    tokens: Vec<Token>,
}

impl Tokenizer for FixedTokenizer {
    // Ghost model of the analysis; erased, never called at run time.
    fn spec_parse(&self, _: Seq<char>) -> Seq<TokenView> {
        unreachable!()
    }

    fn parse(&self, _text: &str) -> Vec<Token> {
        self.tokens
            .iter()
            .map(|t| Token {
                surface: t.surface.clone(),
                basic: t.basic.clone(),
                wordclass: t.wordclass,
                inflection: t.inflection,
                reading: t.reading.clone(),
                pronunciation: t.pronunciation.clone(),
                start: t.start,
            })
            .collect()
    }
}

#[test]
fn copula_becomes_polite() {
    // "今日は晴天だ。" -> "今日は晴天です。"
    let a = standard();
    let tokens = vec![
        noun("今日"),
        particle("は"),
        noun("晴天"),
        aux("だ", "だ", ConjKind::SpecialDa, ConjForm::Basic),
        period(),
    ];
    assert_eq!(tokens_to_polite(&a, tokens).unwrap(), "今日は晴天です。");
}

#[test]
fn polite_copula_becomes_plain() {
    // "今日は晴天です。" -> "今日は晴天だ。"
    let a = standard();
    let tokens = vec![
        noun("今日"),
        particle("は"),
        noun("晴天"),
        aux("です", "です", ConjKind::SpecialDesu, ConjForm::Basic),
        period(),
    ];
    assert_eq!(tokens_to_impolite(&a, tokens), "今日は晴天だ。");
}

#[test]
fn volitional_becomes_polite() {
    // "今日は勉強をしよう。" -> "今日は勉強をしましょう。"
    let a = standard();
    let tokens = vec![
        noun("今日"),
        particle("は"),
        noun("勉強"),
        particle("を"),
        verb("しよ", "する", ConjKind::SahenSuru, ConjForm::NegativeU),
        aux("う", "う", ConjKind::Immutable, ConjForm::Basic),
        period(),
    ];
    assert_eq!(tokens_to_polite(&a, tokens).unwrap(), "今日は勉強をしましょう。");
}

#[test]
fn polite_volitional_becomes_plain() {
    // "今日は勉強をしましょう。" -> "今日は勉強をしよう。"
    let a = standard();
    let tokens = vec![
        noun("今日"),
        particle("は"),
        noun("勉強"),
        particle("を"),
        verb("し", "する", ConjKind::SahenSuru, ConjForm::Continuous),
        aux("ましょ", "ます", ConjKind::SpecialMasu, ConjForm::NegativeU),
        aux("う", "う", ConjKind::Immutable, ConjForm::Basic),
        period(),
    ];
    assert_eq!(tokens_to_impolite(&a, tokens), "今日は勉強をしよう。");
}

#[test]
fn contracted_negative_becomes_polite() {
    // "許さん。" -> "許しません。"
    let a = standard();
    let tokens = vec![
        verb("許さ", "許す", ConjKind::GodanSa, ConjForm::Negative),
        aux("ん", "ん", ConjKind::SpecialNu, ConjForm::Basic),
        period(),
    ];
    assert_eq!(tokens_to_polite(&a, tokens).unwrap(), "許しません。");
}

#[test]
fn polite_negative_becomes_plain_full_form() {
    // "許しません。" -> "許さない。" (the contracted negative comes back in
    // its full form: lemma-level, not surface-literal, round trip)
    let a = standard();
    let tokens = vec![
        verb("許し", "許す", ConjKind::GodanSa, ConjForm::Continuous),
        aux("ませ", "ます", ConjKind::SpecialMasu, ConjForm::Negative),
        aux("ん", "ん", ConjKind::SpecialNu, ConjForm::Basic),
        period(),
    ];
    assert_eq!(tokens_to_impolite(&a, tokens), "許さない。");
}

#[test]
fn adjective_past_becomes_polite() {
    // "今日は寒かった。" -> "今日は寒かったです。"
    let a = standard();
    let tokens = vec![
        noun("今日"),
        particle("は"),
        adjective("寒かっ", "寒い", ConjKind::AdjectiveAuo, ConjForm::ContinuousTa),
        aux("た", "た", ConjKind::SpecialTa, ConjForm::Basic),
        period(),
    ];
    assert_eq!(tokens_to_polite(&a, tokens).unwrap(), "今日は寒かったです。");
}

#[test]
fn polite_adjective_past_becomes_plain() {
    // "今日は寒かったです。" -> "今日は寒かった。"
    let a = standard();
    let tokens = vec![
        noun("今日"),
        particle("は"),
        adjective("寒かっ", "寒い", ConjKind::AdjectiveAuo, ConjForm::ContinuousTa),
        aux("た", "た", ConjKind::SpecialTa, ConjForm::Basic),
        aux("です", "です", ConjKind::SpecialDesu, ConjForm::Basic),
        period(),
    ];
    assert_eq!(tokens_to_impolite(&a, tokens), "今日は寒かった。");
}

#[test]
fn multi_sentence_document_keeps_order() {
    // Each sentence is transformed independently and the outputs
    // concatenate in the original order.
    let a = standard();
    let tokens = vec![
        noun("今日"),
        particle("は"),
        noun("晴天"),
        aux("だ", "だ", ConjKind::SpecialDa, ConjForm::Basic),
        period(),
        noun("明日"),
        particle("は"),
        noun("雨"),
        aux("だ", "だ", ConjKind::SpecialDa, ConjForm::Basic),
        period(),
    ];
    assert_eq!(tokens_to_polite(&a, tokens).unwrap(), "今日は晴天です。明日は雨です。");
}

#[test]
fn breaks_before_adversative_conjunction() {
    // A clause also ends at the adversative conjunction particle, so the
    // clause before it turns polite too.
    let a = standard();
    let tokens = vec![
        noun("晴天"),
        aux("だ", "だ", ConjKind::SpecialDa, ConjForm::Basic),
        tok(
            "が",
            "が",
            WordClass::Postpositional(Postpositional::Conjunction),
            ConjKind::Uninflected,
            ConjForm::Uninflected,
        ),
        noun("雨"),
        aux("だ", "だ", ConjKind::SpecialDa, ConjForm::Basic),
        period(),
    ];
    assert_eq!(tokens_to_polite(&a, tokens).unwrap(), "晴天ですが雨です。");
}

#[test]
fn missing_terminal_punctuation_gets_synthetic_period() {
    let a = standard();
    let tokens = vec![noun("晴天"), aux("だ", "だ", ConjKind::SpecialDa, ConjForm::Basic)];
    assert_eq!(tokens_to_polite(&a, tokens).unwrap(), "晴天です。");
}

#[test]
fn empty_input_gives_empty_output() {
    let a = standard();
    assert_eq!(tokens_to_polite(&a, Vec::new()).unwrap(), "");
    assert_eq!(tokens_to_impolite(&a, Vec::new()), "");
}

#[test]
fn quoted_span_passes_through_polite() {
    // A period inside parentheses declares no break, and the span inside
    // the parentheses is emitted verbatim.
    let a = standard();
    let tokens = vec![
        tok("「", "「", WordClass::Symbol(Symbol::OpenParen), ConjKind::Uninflected, ConjForm::Uninflected),
        noun("晴天"),
        aux("だ", "だ", ConjKind::SpecialDa, ConjForm::Basic),
        period(),
        tok("」", "」", WordClass::Symbol(Symbol::CloseParen), ConjKind::Uninflected, ConjForm::Uninflected),
        aux("だ", "だ", ConjKind::SpecialDa, ConjForm::Basic),
        period(),
    ];
    assert_eq!(tokens_to_polite(&a, tokens).unwrap(), "「晴天だ。」です。");
}

#[test]
fn quoted_span_passes_through_plain() {
    let a = standard();
    let tokens = vec![
        tok("「", "「", WordClass::Symbol(Symbol::OpenParen), ConjKind::Uninflected, ConjForm::Uninflected),
        noun("晴天"),
        aux("です", "です", ConjKind::SpecialDesu, ConjForm::Basic),
        period(),
        tok("」", "」", WordClass::Symbol(Symbol::CloseParen), ConjKind::Uninflected, ConjForm::Uninflected),
        aux("です", "です", ConjKind::SpecialDesu, ConjForm::Basic),
        period(),
    ];
    assert_eq!(tokens_to_impolite(&a, tokens), "「晴天です。」だ。");
}

#[test]
fn end_particle_is_reattached_after_predicate() {
    // "今日はいい天気か。" -> "今日はいい天気ですか。"
    let a = standard();
    let tokens = vec![
        noun("今日"),
        particle("は"),
        noun("いい"),
        noun("天気"),
        end_particle("か"),
        period(),
    ];
    assert_eq!(tokens_to_polite(&a, tokens).unwrap(), "今日はいい天気ですか。");
}

#[test]
fn polite_predicate_is_idempotent() {
    // A clause already in polite register passes through unchanged.
    let a = standard();
    let tokens = vec![
        noun("学校"),
        particle("へ"),
        verb("行き", "行く", ConjKind::GodanKaI, ConjForm::Continuous),
        aux("ます", "ます", ConjKind::SpecialMasu, ConjForm::Basic),
        period(),
    ];
    assert_eq!(tokens_to_polite(&a, tokens).unwrap(), "学校へ行きます。");
}

#[test]
fn polite_verb_becomes_plain() {
    // "学校へ行きます。" -> "学校へ行く。"
    let a = standard();
    let tokens = vec![
        noun("学校"),
        particle("へ"),
        verb("行き", "行く", ConjKind::GodanKaI, ConjForm::Continuous),
        aux("ます", "ます", ConjKind::SpecialMasu, ConjForm::Basic),
        period(),
    ];
    assert_eq!(tokens_to_impolite(&a, tokens), "学校へ行く。");
}

#[test]
fn copula_aru_pair_collapses() {
    // "〜ことである。" -> "〜ことです。"
    let a = standard();
    let tokens = vec![
        noun("こと"),
        aux("で", "だ", ConjKind::SpecialDa, ConjForm::Continuous),
        aux("ある", "ある", ConjKind::GodanRaAru, ConjForm::Basic),
        period(),
    ];
    assert_eq!(tokens_to_polite(&a, tokens).unwrap(), "ことです。");
}

#[test]
fn negative_de_becomes_dewa_arimasen() {
    // A negative over the copula's continuative: "で(は)ない" ->
    // "ではありません".
    let a = standard();
    let tokens = vec![
        noun("雨"),
        aux("で", "で", ConjKind::SpecialDa, ConjForm::Continuous),
        aux("ない", "ない", ConjKind::SpecialNai, ConjForm::Basic),
        period(),
    ];
    assert_eq!(tokens_to_polite(&a, tokens).unwrap(), "雨ではありません。");
}

#[test]
fn polite_dropped_after_adjective() {
    // "寒いです。" -> "寒い。": the polite copula after an adjective is
    // simply dropped.
    let a = standard();
    let tokens = vec![
        adjective("寒い", "寒い", ConjKind::AdjectiveAuo, ConjForm::Basic),
        aux("です", "です", ConjKind::SpecialDesu, ConjForm::Basic),
        period(),
    ];
    assert_eq!(tokens_to_impolite(&a, tokens), "寒い。");
}

#[test]
fn polite_deshou_becomes_darou() {
    // "雨でしょう。" -> "雨だろう。"
    let a = standard();
    let tokens = vec![
        noun("雨"),
        aux("でしょ", "です", ConjKind::SpecialDesu, ConjForm::NegativeU),
        aux("う", "う", ConjKind::Immutable, ConjForm::Basic),
        period(),
    ];
    assert_eq!(tokens_to_impolite(&a, tokens), "雨だろう。");
}

#[test]
fn unsupported_copula_pairing_is_fatal() {
    // The copula table has no entry for ("です", Negative): the conversion
    // aborts with the copula error.
    let a = standard();
    let c = Clause {
        body: vec![aux("だ", "だ", ConjKind::SpecialDa, ConjForm::Basic)],
        sep: period(),
    };
    assert_eq!(
        clause_into_polite(&a, c, ConjForm::Negative),
        Err(TransformError::UnsupportedCopulaPairing)
    );
}

#[test]
fn unsupported_conjugation_is_fatal_in_polite() {
    // The adapter has no rule for this verb: the continuative construction
    // cannot be built and the conversion aborts.
    let a = RuleTable::new();
    let tokens = vec![
        verb("歩く", "歩く", ConjKind::GodanKaI, ConjForm::Basic),
        period(),
    ];
    assert_eq!(
        tokens_to_polite(&a, tokens),
        Err(TransformError::UnsupportedConjugation)
    );
}

#[test]
fn adapter_failure_is_tolerated_in_plain_default() {
    // The generic default rule of the plain transformer falls back to the
    // unchanged surface when the adapter has no rule.
    let a = RuleTable::new();
    let tokens = vec![
        verb("歩く", "歩く", ConjKind::GodanKaI, ConjForm::Basic),
        period(),
    ];
    assert_eq!(tokens_to_impolite(&a, tokens), "歩く。");
}

#[test]
fn negative_past_becomes_polite_through_recursion() {
    // "雨が降らなかった。" -> "雨が降りませんでした。": the past over a
    // negative is rendered by re-entering the transformer on the shortened
    // clause and appending the polite past copula.
    let a = with(
        standard(),
        "降ら",
        ConjKind::GodanRa,
        ConjForm::Negative,
        ConjForm::Continuous,
        "降り",
    );
    let tokens = vec![
        noun("雨"),
        particle("が"),
        verb("降ら", "降る", ConjKind::GodanRa, ConjForm::Negative),
        aux("なかっ", "ない", ConjKind::SpecialNai, ConjForm::ContinuousTa),
        aux("た", "た", ConjKind::SpecialTa, ConjForm::Basic),
        period(),
    ];
    assert_eq!(tokens_to_polite(&a, tokens).unwrap(), "雨が降りませんでした。");
}

#[test]
fn suru_compound_stem_uses_negative_conversion() {
    // A suru-compound stem routes through the negative-form conversion.
    let a = with(
        RuleTable::new(),
        "勉強し",
        ConjKind::SahenSuruConnected,
        ConjForm::Basic,
        ConjForm::Negative,
        "勉強し",
    );
    let tokens = vec![
        verb("勉強し", "勉強する", ConjKind::SahenSuruConnected, ConjForm::Basic),
        period(),
    ];
    assert_eq!(tokens_to_polite(&a, tokens).unwrap(), "勉強します。");
}

#[test]
fn tai_paradigm_uses_continuative_de_form() {
    // The tai auxiliary-adjective paradigm takes the continuative-de form.
    let a = with(
        RuleTable::new(),
        "見たい",
        ConjKind::SpecialTai,
        ConjForm::Basic,
        ConjForm::ContinuousDe,
        "見たく",
    );
    let tokens = vec![
        verb("見たい", "見たい", ConjKind::SpecialTai, ConjForm::Basic),
        period(),
    ];
    assert_eq!(tokens_to_polite(&a, tokens).unwrap(), "見たくます。");
}

#[test]
fn bare_negative_becomes_arimasen() {
    // A clause that is nothing but the negative renders as the polite
    // negative alone.
    let a = standard();
    let tokens = vec![
        aux("ない", "ない", ConjKind::SpecialNai, ConjForm::Basic),
        period(),
    ];
    assert_eq!(tokens_to_polite(&a, tokens).unwrap(), "ありません。");
}

#[test]
fn copula_table_negative_u_slot() {
    // The copula table entry for the negative-u slot: "だ" -> "でしょ".
    let a = standard();
    let c = Clause {
        body: vec![aux("だ", "だ", ConjKind::SpecialDa, ConjForm::Basic)],
        sep: period(),
    };
    assert_eq!(clause_into_polite(&a, c, ConjForm::NegativeU).unwrap(), "でしょ。");
}

#[test]
fn bare_aru_becomes_arimasu() {
    // "ある" with nothing before it becomes the polite existence verb.
    let a = standard();
    let tokens = vec![
        aux("ある", "ある", ConjKind::GodanRaAru, ConjForm::Basic),
        period(),
    ];
    assert_eq!(tokens_to_polite(&a, tokens).unwrap(), "あります。");
}

#[test]
fn aru_after_noun_keeps_prior_surface() {
    // "本がある。" -> "本があります。"
    let a = standard();
    let tokens = vec![
        noun("本"),
        particle("が"),
        aux("ある", "ある", ConjKind::GodanRaAru, ConjForm::Basic),
        period(),
    ];
    assert_eq!(tokens_to_polite(&a, tokens).unwrap(), "本があります。");
}

#[test]
fn plain_negative_directly_over_verb() {
    // "知らん。" -> "知らない。": the contracted negative straight over a
    // verb, without the polite auxiliary in between.
    let a = with(
        standard(),
        "知ら",
        ConjKind::GodanRa,
        ConjForm::Negative,
        ConjForm::Negative,
        "知ら",
    );
    let tokens = vec![
        verb("知ら", "知る", ConjKind::GodanRa, ConjForm::Negative),
        aux("ん", "ん", ConjKind::SpecialNu, ConjForm::Basic),
        period(),
    ];
    assert_eq!(tokens_to_impolite(&a, tokens), "知らない。");
}

#[test]
fn plain_volitional_over_plain_prior_keeps_surface() {
    // A volitional over something that is neither the polite copula nor the
    // polite auxiliary keeps the prior surface: "行こう。" stays "行こう。".
    let a = standard();
    let tokens = vec![
        verb("行こ", "行く", ConjKind::GodanKaI, ConjForm::NegativeU),
        aux("う", "う", ConjKind::Immutable, ConjForm::Basic),
        period(),
    ];
    assert_eq!(tokens_to_impolite(&a, tokens), "行こう。");
}

#[test]
fn entry_points_run_tokenizer_then_transform() {
    let a = standard();
    let t = FixedTokenizer {
        tokens: vec![
            noun("晴天"),
            aux("だ", "だ", ConjKind::SpecialDa, ConjForm::Basic),
            period(),
        ],
    };
    assert_eq!(to_polite_sentence(&t, &a, "晴天だ。").unwrap(), "晴天です。");
    let t2 = FixedTokenizer {
        tokens: vec![
            noun("晴天"),
            aux("です", "です", ConjKind::SpecialDesu, ConjForm::Basic),
            period(),
        ],
    };
    assert_eq!(to_impolite_sentence(&t2, &a, "晴天です。"), "晴天だ。");
}
