use teineigo::rules::RuleTable;
use teineigo::sentence::tokens_to_polite;
use teineigo::splitter::break_into_parts;
use teineigo::token::{ConjForm, ConjKind, Inflection, Postpositional, Symbol, Token, WordClass};

fn tok(surface: &str, basic: &str, wordclass: WordClass, kind: ConjKind, form: ConjForm) -> Token {
    Token {
        surface: surface.to_string(),
        basic: basic.to_string(),
        wordclass,
        inflection: Inflection { kind, form },
        reading: surface.to_string(),
        pronunciation: surface.to_string(),
        start: 0,
    }
}

fn noun(surface: &str) -> Token {
    tok(surface, surface, WordClass::Noun, ConjKind::Uninflected, ConjForm::Uninflected)
}

fn period() -> Token {
    tok("。", "。", WordClass::Symbol(Symbol::Period), ConjKind::Uninflected, ConjForm::Uninflected)
}

fn open_paren() -> Token {
    tok("（", "（", WordClass::Symbol(Symbol::OpenParen), ConjKind::Uninflected, ConjForm::Uninflected)
}

fn close_paren() -> Token {
    tok("）", "）", WordClass::Symbol(Symbol::CloseParen), ConjKind::Uninflected, ConjForm::Uninflected)
}

fn ga_conjunction() -> Token {
    tok(
        "が",
        "が",
        WordClass::Postpositional(Postpositional::Conjunction),
        ConjKind::Uninflected,
        ConjForm::Uninflected,
    )
}

fn surfaces(tokens: &[Token]) -> String {
    let mut s = String::new();
    for t in tokens.iter() {
        s.push_str(&t.surface);
    }
    s
}

#[test]
fn segmentation_is_lossless() {
    // Concatenating all clause bodies and separators in order reproduces
    // the input token sequence.
    let input = vec![
        noun("前"),
        period(),
        noun("中"),
        ga_conjunction(),
        noun("後"),
        period(),
    ];
    let joined = surfaces(&input);
    let clauses = break_into_parts(input);
    assert_eq!(clauses.len(), 3);
    let mut rebuilt = String::new();
    for c in clauses.iter() {
        rebuilt.push_str(&surfaces(&c.body));
        rebuilt.push_str(&c.sep.surface);
    }
    assert_eq!(rebuilt, joined);
}

#[test]
fn segmentation_appends_synthetic_period_only_at_end() {
    let input = vec![noun("前"), period(), noun("後")];
    let clauses = break_into_parts(input);
    assert_eq!(clauses.len(), 2);
    assert_eq!(clauses[0].sep.surface, "。");
    assert_eq!(clauses[1].sep.surface, "。");
    assert_eq!(clauses[1].sep.start, usize::MAX);
    assert_eq!(surfaces(&clauses[1].body), "後");
}

#[test]
fn no_break_inside_parentheses() {
    // Periods and adversative particles inside parentheses declare no break.
    let input = vec![
        open_paren(),
        noun("中"),
        period(),
        ga_conjunction(),
        close_paren(),
        period(),
    ];
    let clauses = break_into_parts(input);
    assert_eq!(clauses.len(), 1);
    assert_eq!(surfaces(&clauses[0].body), "（中。が）");
    assert_eq!(clauses[0].sep.surface, "。");
}

#[test]
fn excess_close_parens_clamp_to_zero_depth() {
    // More closes than opens is an input-quality problem, not a fatal one:
    // the depth clamps at zero and breaks go on being declared.
    let input = vec![close_paren(), noun("後"), period()];
    let clauses = break_into_parts(input);
    assert_eq!(clauses.len(), 1);
    assert_eq!(surfaces(&clauses[0].body), "）後");
    assert_eq!(clauses[0].sep.surface, "。");
}

#[test]
fn case_particle_ga_is_no_break() {
    // Only the conjunction particle breaks a clause; the homophonous case
    // particle does not.
    let input = vec![
        noun("雨"),
        tok(
            "が",
            "が",
            WordClass::Postpositional(Postpositional::Plain),
            ConjKind::Uninflected,
            ConjForm::Uninflected,
        ),
        noun("嫌い"),
        period(),
    ];
    let clauses = break_into_parts(input);
    assert_eq!(clauses.len(), 1);
}

#[test]
fn zuru_compound_stem_strips_suffix() {
    // The zuru-compound stem comes from the base form with its final two
    // characters stripped and the continuative syllable appended; no
    // adapter rule is consulted.
    let a = RuleTable::new();
    let tokens = vec![
        tok("命ずる", "命ずる", WordClass::Verb, ConjKind::SahenZuruConnected, ConjForm::Basic),
        period(),
    ];
    assert_eq!(tokens_to_polite(&a, tokens).unwrap(), "命じます。");
}

#[test]
fn single_row_ru_paradigm_passes_through() {
    // The single-row "ru" paradigm is a known unresolved gap: its base form
    // passes through unchanged.
    let a = RuleTable::new();
    let tokens = vec![
        tok("察せらる", "察せられる", WordClass::Verb, ConjKind::IchidanRu, ConjForm::Basic),
        period(),
    ];
    assert_eq!(tokens_to_polite(&a, tokens).unwrap(), "察せられるます。");
}

#[test]
fn string_content_comparison() {
    let t = noun("雨");
    assert!(teineigo::token::str_is(&t.basic, "雨"));
    assert!(!teineigo::token::str_is(&t.basic, "晴"));
}
