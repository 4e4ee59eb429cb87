use abap_tokenizer::config::{
    CategoryConfig, Metadata, RawPatternConfig, RawSpecialRule, RawTokenizerConfig, TokenizerConfig,
};
use abap_tokenizer::table::Table;
use abap_tokenizer::token::{Token, TokenType};
use abap_tokenizer::tokenizer::FlexibleTokenizer;

fn metadata(version: &str) -> Metadata {
    Metadata {
        language_version: version.to_string(),
        case_sensitive: false,
        allow_unicode_identifiers: true,
    }
}

fn raw_config() -> RawTokenizerConfig {
    RawTokenizerConfig {
        metadata: metadata("7.5"),
        token_categories: Table::new(),
        patterns: Table::new(),
        context_rules: Table::new(),
        custom_actions: Table::new(),
        imports: None,
        special_rules: Vec::new(),
    }
}

fn category(raw: &mut RawTokenizerConfig, name: &str, priority: u32, patterns: &[(&str, Option<&str>)]) {
    raw.token_categories.insert(
        name.to_string(),
        CategoryConfig { priority, color: "black".to_string() },
    );
    let list = patterns
        .iter()
        .map(|(re, sub)| RawPatternConfig {
            regex: re.to_string(),
            subcategory: sub.map(|s| s.to_string()),
        })
        .collect();
    raw.patterns.insert(name.to_string(), list);
}

fn special(start: &str, end: Option<&str>, token_type: &str) -> RawSpecialRule {
    RawSpecialRule {
        name: format!("rule-{}", start),
        start: start.to_string(),
        end: end.map(|e| e.to_string()),
        start_column: None,
        min_length: None,
        regex: None,
        token_type: token_type.to_string(),
    }
}

fn compile(raw: RawTokenizerConfig) -> TokenizerConfig {
    match TokenizerConfig::from_raw(raw) {
        Ok(c) => c,
        Err(e) => panic!("compilation failed: {:?}", e),
    }
}

fn next(t: &mut FlexibleTokenizer) -> Token {
    t.next_token().expect("scanning never fails").expect("a token remains")
}

fn all_tokens(input: &str, config: TokenizerConfig) -> Vec<Token> {
    let mut t = FlexibleTokenizer::new(input, config);
    let mut out = Vec::new();
    while let Some(tok) = t.next_token().unwrap() {
        out.push(tok);
    }
    out
}

#[test]
fn empty_and_blank_input_give_no_token_repeatedly() {
    let mut t = FlexibleTokenizer::new("  \t\n ", compile(raw_config()));
    assert!(t.next_token().unwrap().is_none());
    assert!(t.next_token().unwrap().is_none());
    assert!(t.next_token().unwrap().is_none());
    let mut e = FlexibleTokenizer::new("", compile(raw_config()));
    assert!(e.next_token().unwrap().is_none());
    assert!(e.next_token().unwrap().is_none());
}

#[test]
fn every_token_consumes_input() {
    let mut t = FlexibleTokenizer::new("ab c", compile(raw_config()));
    let mut last = t.position();
    let mut count = 0;
    while let Some(_) = t.next_token().unwrap() {
        assert!(t.position() > last);
        last = t.position();
        count += 1;
    }
    assert_eq!(count, 3);
    assert!(t.next_token().unwrap().is_none());
}

#[test]
fn lower_priority_value_wins_regardless_of_order() {
    let mut raw = raw_config();
    category(&mut raw, "Low", 2, &[("[a-z]+", None)]);
    category(&mut raw, "High", 1, &[("[a-z]+", Some("word"))]);
    let tokens = all_tokens("abc", compile(raw));
    assert_eq!(tokens.len(), 1);
    assert_eq!(tokens[0].token_type, TokenType::new("High".to_string(), Some("word".to_string())));
    assert_eq!(tokens[0].value, "abc");
}

#[test]
fn equal_priorities_follow_definition_order() {
    let mut raw = raw_config();
    category(&mut raw, "First", 1, &[("[a-z]", None)]);
    category(&mut raw, "Second", 1, &[("[a-z]+", None)]);
    let tokens = all_tokens("ab", compile(raw));
    assert_eq!(tokens[0].token_type.category, "First");
    assert_eq!(tokens[0].value, "a");
}

#[test]
fn first_matching_pattern_of_a_category_wins() {
    let mut raw = raw_config();
    category(&mut raw, "Kw", 1, &[("IF", Some("flow")), ("[A-Z]+", Some("word"))]);
    let tokens = all_tokens("IF ELSE", compile(raw));
    assert_eq!(tokens[0].token_type.subcategory, Some("flow".to_string()));
    assert_eq!(tokens[1].token_type.subcategory, Some("word".to_string()));
    assert_eq!(tokens[1].value, "ELSE");
}

#[test]
fn only_matches_at_the_cursor_count() {
    let mut raw = raw_config();
    category(&mut raw, "B", 1, &[("b", None)]);
    let tokens = all_tokens("ab", compile(raw));
    assert_eq!(tokens.len(), 2);
    assert_eq!(tokens[0].token_type.category, "Unknown");
    assert_eq!(tokens[0].value, "a");
    assert_eq!(tokens[1].token_type.category, "B");
    assert_eq!(tokens[1].value, "b");
    assert_eq!(tokens[1].column, 2);
}

#[test]
fn special_rules_come_before_patterns() {
    let mut raw = raw_config();
    category(&mut raw, "Op", 0, &[(r"\*+", None)]);
    raw.special_rules.push(special("*", None, "Comment"));
    let tokens = all_tokens("** x", compile(raw));
    assert_eq!(tokens.len(), 1);
    assert_eq!(tokens[0].token_type, TokenType::new("Comment".to_string(), None));
    assert_eq!(tokens[0].value, "** x");
}

#[test]
fn delimited_rule_stops_after_end_marker() {
    let mut raw = raw_config();
    raw.special_rules.push(special("/*", Some("*/"), "Comment"));
    let config = compile(raw);
    let mut t = FlexibleTokenizer::new("/* x */rest", config);
    let tok = next(&mut t);
    assert_eq!(tok.value, "/* x */");
    assert_eq!(tok.token_type.category, "Comment");
    assert_eq!(t.position(), 7);
    assert_eq!(t.column(), 8);
    let rest = next(&mut t);
    assert_eq!(rest.token_type.category, "Unknown");
    assert_eq!(rest.value, "r");
    assert_eq!(rest.column, 8);
}

#[test]
fn delimited_rule_with_min_length_intersects_constraints() {
    let mut raw = raw_config();
    let mut rule = special("/*", Some("*/"), "Comment");
    rule.min_length = Some(3);
    raw.special_rules.push(rule);
    let mut t = FlexibleTokenizer::new("/* */", compile(raw));
    let tok = next(&mut t);
    assert_eq!(tok.value, "/* */");
    assert!(t.next_token().unwrap().is_none());
}

#[test]
fn min_length_counts_the_remaining_input() {
    let mut raw = raw_config();
    let mut rule = special("#", None, "Hash");
    rule.min_length = Some(3);
    raw.special_rules.push(rule);
    let tokens = all_tokens("#a", compile(raw));
    assert_eq!(tokens[0].token_type.category, "Unknown");
    assert_eq!(tokens[0].value, "#");
}

#[test]
fn missing_end_marker_rejects_the_rule() {
    let mut raw = raw_config();
    raw.special_rules.push(special("/*", Some("*/"), "Comment"));
    raw.special_rules.push(special("/", None, "Slash"));
    let tokens = all_tokens("/* open", compile(raw));
    assert_eq!(tokens.len(), 1);
    assert_eq!(tokens[0].token_type.category, "Slash");
    assert_eq!(tokens[0].value, "/* open");
}

#[test]
fn open_ended_rule_takes_the_rest_of_the_input() {
    let mut raw = raw_config();
    raw.special_rules.push(special("\"", None, "Comment"));
    let tokens = all_tokens("x \"to the end\nnext line", {
        let mut r = raw;
        category(&mut r, "Id", 1, &[("[a-z]+", None)]);
        compile(r)
    });
    assert_eq!(tokens.len(), 2);
    assert_eq!(tokens[1].value, "\"to the end\nnext line");
    assert_eq!(tokens[1].column, 3);
}

#[test]
fn start_column_constraint_is_checked() {
    let mut raw = raw_config();
    let mut rule = special("*", None, "LineComment");
    rule.start_column = Some(1);
    raw.special_rules.push(rule);
    let tokens = all_tokens("a *b\n* c", compile(raw));
    let kinds: Vec<&str> = tokens.iter().map(|t| t.token_type.category.as_str()).collect();
    assert_eq!(kinds, vec!["Unknown", "Unknown", "Unknown", "LineComment"]);
    assert_eq!(tokens[3].value, "* c");
    assert_eq!(tokens[3].line, 2);
    assert_eq!(tokens[3].column, 1);
}

#[test]
fn regex_constraint_bounds_the_match() {
    let mut raw = raw_config();
    let mut rule = special("'", None, "String");
    rule.regex = Some("'[^']*'".to_string());
    raw.special_rules.push(rule);
    let tokens = all_tokens("'héllo' x", compile(raw));
    assert_eq!(tokens[0].value, "'héllo'");
    assert_eq!(tokens[1].value, "x");
    assert_eq!(tokens[1].column, 9);
}

#[test]
fn invalid_rule_regex_rejects_the_rule() {
    let mut raw = raw_config();
    let mut rule = special("'", None, "String");
    rule.regex = Some("(".to_string());
    raw.special_rules.push(rule);
    let tokens = all_tokens("'", compile(raw));
    assert_eq!(tokens[0].token_type.category, "Unknown");
}

#[test]
fn cursor_moves_by_characters_and_lines() {
    let mut t = FlexibleTokenizer::new("a\nbb", compile(raw_config()));
    let mut seen = vec![(t.line(), t.column())];
    for _ in 0..4 {
        t.advance();
        seen.push((t.line(), t.column()));
    }
    assert_eq!(seen, vec![(1, 1), (1, 2), (2, 1), (2, 2), (2, 3)]);
    assert_eq!(t.position(), 4);
    assert_eq!(t.advance(), '\0');
    assert_eq!((t.line(), t.column(), t.position()), (2, 3, 4));
}

#[test]
fn position_counts_bytes_and_column_counts_characters() {
    let mut t = FlexibleTokenizer::new("é€😀", compile(raw_config()));
    assert_eq!(t.advance(), 'é');
    assert_eq!(t.position(), 2);
    assert_eq!(t.advance(), '€');
    assert_eq!(t.position(), 5);
    assert_eq!(t.advance(), '😀');
    assert_eq!(t.position(), 9);
    assert_eq!(t.column(), 4);
}

#[test]
fn unknown_character_becomes_one_token() {
    let mut t = FlexibleTokenizer::new("§", compile(raw_config()));
    let tok = next(&mut t);
    assert_eq!(tok.token_type, TokenType::new("Unknown".to_string(), None));
    assert_eq!(tok.value, "§");
    assert_eq!((tok.line, tok.column), (1, 1));
    assert_eq!(t.position(), 2);
    assert_eq!(t.column(), 2);
    assert!(t.next_token().unwrap().is_none());
}

#[test]
fn empty_pattern_matches_do_not_stall() {
    let mut raw = raw_config();
    category(&mut raw, "Digits", 1, &[("[0-9]*", None)]);
    let tokens = all_tokens("x12", compile(raw));
    assert_eq!(tokens.len(), 2);
    assert_eq!(tokens[0].value, "x");
    assert_eq!(tokens[1].value, "12");
}

#[test]
fn tokens_carry_line_and_column_of_their_first_character() {
    let mut raw = raw_config();
    category(&mut raw, "Id", 1, &[("[A-Za-z_]+", None)]);
    category(&mut raw, "Punct", 2, &[(r"\.", None)]);
    let tokens = all_tokens("DATA x.\n  WRITE y.", compile(raw));
    let pos: Vec<(String, usize, usize)> =
        tokens.iter().map(|t| (t.value.clone(), t.line, t.column)).collect();
    assert_eq!(
        pos,
        vec![
            ("DATA".to_string(), 1, 1),
            ("x".to_string(), 1, 6),
            (".".to_string(), 1, 7),
            ("WRITE".to_string(), 2, 3),
            ("y".to_string(), 2, 9),
            (".".to_string(), 2, 10),
        ]
    );
}

#[test]
fn undefined_categories_are_tried_after_defined_ones() {
    let mut raw = raw_config();
    raw.patterns.insert(
        "Loose".to_string(),
        vec![RawPatternConfig { regex: "[a-z]+".to_string(), subcategory: None }],
    );
    category(&mut raw, "Defined", 100, &[("[a-z]", None)]);
    let tokens = all_tokens("ab", compile(raw));
    assert_eq!(tokens[0].token_type.category, "Defined");
    assert_eq!(tokens[0].value, "a");
}

#[test]
fn unicode_whitespace_is_skipped() {
    let input = "\u{a0}\u{3000}\u{2003}\t\r\n\u{85}x\u{200b}";
    let mut t = FlexibleTokenizer::new(input, compile(raw_config()));
    let x = next(&mut t);
    assert_eq!(x.value, "x");
    assert_eq!((x.line, x.column), (2, 2));
    let zw = next(&mut t);
    assert_eq!(zw.value, "\u{200b}");
    assert!(t.next_token().unwrap().is_none());
    assert_eq!(t.position(), input.len());
    for c in ['\u{a0}', '\u{3000}', '\u{2003}', '\u{85}', '\u{1680}', '\u{2028}', '\u{202f}', '\u{205f}', ' ', '\x0b', '\x0c'] {
        assert!(c.is_whitespace());
        let s = format!("{}a", c);
        let tokens = all_tokens(&s, compile(raw_config()));
        assert_eq!(tokens.len(), 1, "{:?}", c);
    }
}

#[test]
fn cursor_after_worked_examples() {
    let mut raw = raw_config();
    category(&mut raw, "Op", 1, &[("[*]", None)]);
    raw.special_rules.push(special("*", None, "Comment"));
    let mut t = FlexibleTokenizer::new("* x", compile(raw));
    let tok = next(&mut t);
    assert_eq!((tok.value.as_str(), t.position()), ("* x", 3));

    let mut raw = raw_config();
    raw.special_rules.push(special("#", None, "Comment"));
    let mut t = FlexibleTokenizer::new("# a\nb c", compile(raw));
    let tok = next(&mut t);
    assert_eq!(tok.value, "# a\nb c");
    assert_eq!((t.position(), t.line(), t.column()), (7, 2, 4));

    let mut raw = raw_config();
    raw.special_rules.push(special("/*", Some("*/"), "Comment"));
    let mut t = FlexibleTokenizer::new("/* x */rest", compile(raw));
    let tok = next(&mut t);
    assert_eq!((tok.line, tok.column), (1, 1));
    assert_eq!((t.position(), t.line(), t.column()), (7, 1, 8));
}

#[test]
fn end_of_input_leaves_cursor_alone() {
    let mut t = FlexibleTokenizer::new("a\n  ", compile(raw_config()));
    next(&mut t);
    assert!(t.next_token().unwrap().is_none());
    let after = (t.position(), t.line(), t.column());
    assert_eq!(after, (4, 2, 3));
    assert!(t.next_token().unwrap().is_none());
    assert_eq!((t.position(), t.line(), t.column()), after);
}
