use abap_tokenizer::config::{
    CategoryConfig, CompiledPatternConfig, ContextRule, CustomAction, Metadata, RawPatternConfig,
    RawSpecialRule, RawTokenizerConfig, RuleAttribute, SpecialRule, TokenizerConfig,
};
use abap_tokenizer::error::{ConfigError, TokenizerError};
use abap_tokenizer::pattern::Pattern;
use abap_tokenizer::table::Table;
use abap_tokenizer::token::{Token, TokenType};

fn raw_with(version: &str, patterns: &[(&str, &[&str])]) -> RawTokenizerConfig {
    let mut table = Table::new();
    for (name, list) in patterns {
        let v = list
            .iter()
            .map(|re| RawPatternConfig { regex: re.to_string(), subcategory: None })
            .collect();
        table.insert(name.to_string(), v);
    }
    RawTokenizerConfig {
        metadata: Metadata {
            language_version: version.to_string(),
            case_sensitive: true,
            allow_unicode_identifiers: false,
        },
        token_categories: Table::new(),
        patterns: table,
        context_rules: Table::new(),
        custom_actions: Table::new(),
        imports: Some(vec!["base.toml".to_string()]),
        special_rules: Vec::new(),
    }
}

fn rule(start: &str) -> ContextRule {
    ContextRule { start: start.to_string(), end: "'".to_string(), escape: None, multiline: Some(false) }
}

fn sources(config: &TokenizerConfig, category: &str) -> Vec<String> {
    config
        .get_pattern(category)
        .map(|v| v.iter().map(|p| p.regex.as_str().to_string()).collect())
        .unwrap_or_default()
}

#[test]
fn compile_keeps_everything_and_strips_rule_names() {
    let mut raw = raw_with("7.5", &[("Kw", &["IF", "ELSE"]), ("Num", &["[0-9]+"])]);
    raw.token_categories.insert("Kw".to_string(), CategoryConfig { priority: 1, color: "blue".to_string() });
    raw.context_rules.insert("str".to_string(), rule("'"));
    raw.special_rules.push(RawSpecialRule {
        name: "comment".to_string(),
        start: "*".to_string(),
        end: None,
        start_column: Some(1),
        min_length: None,
        regex: None,
        token_type: "Comment".to_string(),
    });
    let config = TokenizerConfig::from_raw(raw).unwrap();
    assert_eq!(config.metadata.language_version, "7.5");
    assert_eq!(sources(&config, "Kw"), vec!["IF", "ELSE"]);
    assert_eq!(sources(&config, "Num"), vec!["[0-9]+"]);
    assert_eq!(config.token_categories.get("Kw").unwrap().priority, 1);
    assert_eq!(config.get_context_rule("str").unwrap().start, "'");
    assert_eq!(config.imports, Some(vec!["base.toml".to_string()]));
    assert_eq!(config.special_rules.len(), 1);
    assert_eq!(config.special_rules[0].start, "*");
    assert_eq!(config.special_rules[0].start_column, Some(1));
    assert_eq!(config.special_rules[0].token_type, "Comment");
}

#[test]
fn invalid_regex_is_named() {
    let raw = raw_with("7.5", &[("Good", &["a+"]), ("Bad", &["b", "(unclosed", "[also"])]);
    match TokenizerConfig::from_raw(raw) {
        Err(ConfigError::InvalidRegex(s)) => assert_eq!(s, "(unclosed"),
        _ => panic!("expected an invalid regex"),
    }
}

#[test]
fn empty_language_version_is_missing() {
    let raw = raw_with("", &[("Kw", &["IF"])]);
    match TokenizerConfig::from_raw(raw) {
        Err(ConfigError::MissingField(f)) => assert_eq!(f, "language_version"),
        _ => panic!("expected a missing field"),
    }
}

#[test]
fn invalid_regex_is_reported_before_missing_version() {
    let raw = raw_with("", &[("Kw", &["("])]);
    assert!(matches!(TokenizerConfig::from_raw(raw), Err(ConfigError::InvalidRegex(_))));
}

#[test]
fn merge_keeps_first_categories_overwrites_rules_and_concatenates_patterns() {
    let mut a_raw = raw_with("7.5", &[("Kw", &["IF"])]);
    a_raw.token_categories.insert("Kw".to_string(), CategoryConfig { priority: 1, color: "red".to_string() });
    a_raw.context_rules.insert("str".to_string(), rule("a"));
    let mut b_raw = raw_with("7.4", &[("Kw", &["ELSE"]), ("Num", &["[0-9]+"])]);
    b_raw.token_categories.insert("Kw".to_string(), CategoryConfig { priority: 9, color: "blue".to_string() });
    b_raw.token_categories.insert("Num".to_string(), CategoryConfig { priority: 3, color: "green".to_string() });
    b_raw.context_rules.insert("str".to_string(), rule("b"));
    b_raw.custom_actions.insert(
        "upper".to_string(),
        CustomAction { action: "uppercase".to_string(), args: None },
    );
    let mut a = TokenizerConfig::from_raw(a_raw).unwrap();
    let b = TokenizerConfig::from_raw(b_raw).unwrap();
    assert!(a.merge(b).is_ok());
    let kw = a.token_categories.get("Kw").unwrap();
    assert_eq!((kw.priority, kw.color.as_str()), (1, "red"));
    assert_eq!(a.token_categories.get("Num").unwrap().priority, 3);
    assert_eq!(a.get_context_rule("str").unwrap().start, "b");
    assert_eq!(sources(&a, "Kw"), vec!["IF", "ELSE"]);
    assert_eq!(sources(&a, "Num"), vec!["[0-9]+"]);
    assert_eq!(a.get_custom_action("upper").unwrap().action, "uppercase");
    assert_eq!(a.metadata.language_version, "7.5");
}

#[test]
fn merge_does_not_touch_special_rules() {
    let mut a_raw = raw_with("7.5", &[]);
    a_raw.special_rules.push(RawSpecialRule {
        name: "c".to_string(),
        start: "*".to_string(),
        end: None,
        start_column: None,
        min_length: None,
        regex: None,
        token_type: "Comment".to_string(),
    });
    let mut b_raw = raw_with("7.5", &[]);
    b_raw.special_rules.push(RawSpecialRule {
        name: "d".to_string(),
        start: "\"".to_string(),
        end: None,
        start_column: None,
        min_length: None,
        regex: None,
        token_type: "Comment".to_string(),
    });
    let mut a = TokenizerConfig::from_raw(a_raw).unwrap();
    a.merge(TokenizerConfig::from_raw(b_raw).unwrap()).unwrap();
    assert_eq!(a.special_rules.len(), 1);
    assert_eq!(a.special_rules[0].start, "*");
}

#[test]
fn accessors_add_and_replace() {
    let mut c = TokenizerConfig::from_raw(raw_with("7.5", &[])).unwrap();
    assert!(c.get_pattern("Kw").is_none());
    c.add_pattern(
        "Kw".to_string(),
        CompiledPatternConfig { regex: Pattern::new("IF").unwrap(), subcategory: None },
    );
    c.add_pattern(
        "Kw".to_string(),
        CompiledPatternConfig { regex: Pattern::new("ELSE").unwrap(), subcategory: Some("flow".to_string()) },
    );
    assert_eq!(sources(&c, "Kw"), vec!["IF", "ELSE"]);
    assert_eq!(c.get_pattern("Kw").unwrap()[1].subcategory, Some("flow".to_string()));
    c.add_context_rule("str".to_string(), rule("a"));
    c.add_context_rule("str".to_string(), rule("b"));
    assert_eq!(c.get_context_rule("str").unwrap().start, "b");
    assert!(c.get_context_rule("none").is_none());
    let mut args = Table::new();
    args.insert("mode".to_string(), "strict".to_string());
    c.add_custom_action("check".to_string(), CustomAction { action: "lint".to_string(), args: Some(args) });
    let action = c.get_custom_action("check").unwrap();
    assert_eq!(action.action, "lint");
    assert_eq!(action.args.as_ref().unwrap().get("mode"), Some(&"strict".to_string()));
    assert!(c.get_custom_action("none").is_none());
}

#[test]
fn table_keeps_insertion_order_and_unique_names() {
    let mut t: Table<u32> = Table::new();
    t.insert("b".to_string(), 1);
    t.insert("a".to_string(), 2);
    t.insert("b".to_string(), 3);
    assert_eq!(t.len(), 2);
    assert_eq!(t.entry(0), (&"b".to_string(), &3));
    assert_eq!(t.entry(1), (&"a".to_string(), &2));
    assert_eq!(t.position("a"), Some(1));
    assert_eq!(t.position("z"), None);
}

#[test]
fn pattern_matches_only_at_the_start() {
    let p = Pattern::new("b+").unwrap();
    assert_eq!(p.as_str(), "b+");
    assert_eq!(p.match_at_start("bbc"), Some("bb".to_string()));
    assert_eq!(p.match_at_start("abb"), None);
    assert_eq!(p.match_at_start("xyz"), None);
    assert!(matches!(Pattern::new("["), Err(ConfigError::InvalidRegex(s)) if s == "["));
}

#[test]
fn special_rule_attributes_by_name() {
    let r = SpecialRule {
        start: "/*".to_string(),
        end: Some("*/".to_string()),
        start_column: None,
        min_length: Some(4),
        regex: None,
        token_type: "Comment".to_string(),
    };
    assert_eq!(r.get_attribute("start"), Some(RuleAttribute::Text("/*".to_string())));
    assert_eq!(r.get_attribute("end"), Some(RuleAttribute::Text("*/".to_string())));
    assert_eq!(r.get_attribute("regex"), None);
    assert_eq!(r.get_attribute("min_length"), Some(RuleAttribute::Number(4)));
    assert_eq!(r.get_attribute("start_column"), None);
    assert_eq!(r.get_attribute("token_type"), None);
}

#[test]
fn token_type_round_trips_through_text() {
    let cases = vec![
        TokenType::new("Keyword".to_string(), Some("ControlFlow".to_string())),
        TokenType::new("Identifier".to_string(), None),
        TokenType::new(String::new(), Some(String::new())),
    ];
    for t in cases {
        assert_eq!(TokenType::from_str(&t.to_string()), t);
    }
}

#[test]
fn token_type_text_forms() {
    assert_eq!(
        TokenType::from_str("Keyword:ControlFlow"),
        TokenType::new("Keyword".to_string(), Some("ControlFlow".to_string()))
    );
    assert_eq!(TokenType::from_str("Keyword"), TokenType::new("Keyword".to_string(), None));
    assert_eq!(TokenType::new("A".to_string(), Some("b".to_string())).to_string(), "A:b");
    assert_eq!(TokenType::new("A".to_string(), None).to_string(), "A");
}

#[test]
fn token_holds_its_parts() {
    let t = Token::new(TokenType::new("Num".to_string(), None), "42".to_string(), 3, 7);
    assert_eq!(t.token_type.category, "Num");
    assert_eq!(t.value, "42");
    assert_eq!((t.line, t.column), (3, 7));
}

#[test]
fn error_descriptions() {
    assert_eq!(ConfigError::InvalidRegex("(".to_string()).to_string(), "Invalid regex pattern: (");
    assert_eq!(
        ConfigError::MissingField("language_version".to_string()).to_string(),
        "Missing required field: language_version"
    );
    assert_eq!(ConfigError::IoError("x".to_string()).to_string(), "IO error: x");
    assert_eq!(ConfigError::ParseError("y".to_string()).to_string(), "Parse error: y");
    assert_eq!(ConfigError::ConfigurationError("z".to_string()).to_string(), "Configuration error: z");
    let e: TokenizerError = ConfigError::ParseError("p".to_string()).into();
    assert_eq!(e, TokenizerError::ConfigError(ConfigError::ParseError("p".to_string())));
}

#[test]
fn tokenizer_error_descriptions() {
    assert_eq!(TokenizerError::UnexpectedCharacter('§').to_string(), "Unexpected character: §");
    assert_eq!(TokenizerError::InvalidToken("x".to_string()).to_string(), "Invalid token: x");
    assert_eq!(TokenizerError::TokenizationError("y".to_string()).to_string(), "Tokenization error: y");
    assert_eq!(
        TokenizerError::ConfigError(ConfigError::MissingField("f".to_string())).to_string(),
        "Configuration error: Missing required field: f"
    );
}
