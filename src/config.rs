//! Rule sets: the raw form as authored, its compiled form, compilation and
//! merging.
use vstd::prelude::*;
use vstd::string::*;

use crate::error::ConfigError;
use crate::pattern::{regex_compiles, Pattern};
use crate::table::{
    append_lists, keep_first, keys, lemma_append_lists_concat, lemma_keep_first_keeps,
    lemma_key_index_absent, lemma_key_index_bounds, lemma_key_index_list_view, lemma_overwrite_takes,
    list_view, lookup, overwrite, upsert, Table,
};

verus! {

/// General facts about a rule set.
#[derive(Debug, Clone)]
pub struct Metadata {
    /// The language version the rule set targets; must not be empty.
    pub language_version: String,
    /// Whether matching is meant to be case-sensitive.
    pub case_sensitive: bool,
    /// Whether identifiers may hold Unicode characters.
    pub allow_unicode_identifiers: bool,
}

/// A token category's definition.
#[derive(Debug, Clone)]
pub struct CategoryConfig {
    /// Lower values are tried earlier.
    pub priority: u32,
    /// A display color for the category.
    pub color: String,
}

/// A context rule: a region between two markers.
#[derive(Debug, Clone)]
pub struct ContextRule {
    /// The marker that opens the region.
    pub start: String,
    /// The marker that closes the region.
    pub end: String,
    /// An optional escape marker inside the region.
    pub escape: Option<String>,
    /// Whether the region may span lines.
    pub multiline: Option<bool>,
}

/// A named action with optional string arguments.
#[derive(Debug)]
pub struct CustomAction {
    /// The action's identifier.
    pub action: String,
    /// Optional arguments, by name.
    pub args: Option<Table<String>>,
}

/// A pattern as authored: its source text and an optional subcategory.
#[derive(Debug, Clone)]
pub struct RawPatternConfig {
    /// The regular expression's source text.
    pub regex: String,
    /// An optional subcategory for tokens it matches.
    pub subcategory: Option<String>,
}

/// A compiled pattern and its optional subcategory.
#[derive(Debug)]
pub struct CompiledPatternConfig {
    /// The compiled regular expression.
    pub regex: Pattern,
    /// An optional subcategory for tokens it matches.
    pub subcategory: Option<String>,
}

/// A special rule as authored, with its name.
#[derive(Debug, Clone)]
pub struct RawSpecialRule {
    /// The rule's name.
    pub name: String,
    /// The marker the remaining input must begin with.
    pub start: String,
    /// A marker that bounds the match at its first occurrence after `start`.
    pub end: Option<String>,
    /// The column at which the rule may apply.
    pub start_column: Option<usize>,
    /// The least length (in bytes) of the remaining input for the rule to apply.
    pub min_length: Option<usize>,
    /// A regular expression that must match at the start of the remaining input.
    pub regex: Option<String>,
    /// The category of tokens the rule produces.
    pub token_type: String,
}

/// A special rule, ready for scanning.
#[derive(Debug, Clone)]
pub struct SpecialRule {
    /// The marker the remaining input must begin with.
    pub start: String,
    /// A marker that bounds the match at its first occurrence after `start`.
    pub end: Option<String>,
    /// The column at which the rule may apply.
    pub start_column: Option<usize>,
    /// The least length (in bytes) of the remaining input for the rule to apply.
    pub min_length: Option<usize>,
    /// A regular expression that must match at the start of the remaining input.
    pub regex: Option<String>,
    /// The category of tokens the rule produces.
    pub token_type: String,
}

/// A rule set as authored.
pub struct RawTokenizerConfig {
    /// General facts about the rule set.
    pub metadata: Metadata,
    /// Category definitions, by name.
    pub token_categories: Table<CategoryConfig>,
    /// Pattern lists as authored, by category.
    pub patterns: Table<Vec<RawPatternConfig>>,
    /// Context rules, by name.
    pub context_rules: Table<ContextRule>,
    /// Custom actions, by name.
    pub custom_actions: Table<CustomAction>,
    /// Further rule sets to merge in, by path or name.
    pub imports: Option<Vec<String>>,
    /// Special rules as authored, in order.
    pub special_rules: Vec<RawSpecialRule>,
}

/// A compiled rule set, ready for scanning.
pub struct TokenizerConfig {
    /// General facts about the rule set.
    pub metadata: Metadata,
    /// Category definitions, by name.
    pub token_categories: Table<CategoryConfig>,
    /// Compiled pattern lists, by category.
    pub patterns: Table<Vec<CompiledPatternConfig>>,
    /// Context rules, by name.
    pub context_rules: Table<ContextRule>,
    /// Custom actions, by name.
    pub custom_actions: Table<CustomAction>,
    /// Further rule sets to merge in, by path or name.
    pub imports: Option<Vec<String>>,
    /// Special rules, in order; the first that fires wins.
    pub special_rules: Vec<SpecialRule>,
}

/// A pattern as (source text, subcategory).
pub open spec fn raw_pattern_view(p: RawPatternConfig) -> (Seq<char>, Option<Seq<char>>) {
    (p.regex@, p.subcategory.deep_view())
}

/// A compiled pattern as (source text, subcategory).
pub open spec fn compiled_pattern_view(p: CompiledPatternConfig) -> (Seq<char>, Option<Seq<char>>) {
    (p.regex@, p.subcategory.deep_view())
}

/// A list of patterns as authored, as (source text, subcategory) pairs.
pub open spec fn raw_list_view(v: Vec<RawPatternConfig>) -> Seq<(Seq<char>, Option<Seq<char>>)> {
    v@.map_values(|p: RawPatternConfig| raw_pattern_view(p))
}

/// A list of compiled patterns, as (source text, subcategory) pairs.
pub open spec fn compiled_list_view(v: Vec<CompiledPatternConfig>) -> Seq<(Seq<char>, Option<Seq<char>>)> {
    v@.map_values(|p: CompiledPatternConfig| compiled_pattern_view(p))
}

/// A table of compiled pattern lists, each list as (source text, subcategory) pairs.
pub open spec fn compiled_table_view(c: Seq<(Seq<char>, Vec<CompiledPatternConfig>)>) -> Seq<(Seq<char>, Seq<(Seq<char>, Option<Seq<char>>)>)> {
    c.map_values(|e: (Seq<char>, Vec<CompiledPatternConfig>)| (e.0, compiled_list_view(e.1)))
}

/// A table of authored pattern lists, each list as (source text, subcategory) pairs.
pub open spec fn raw_table_view(r: Seq<(Seq<char>, Vec<RawPatternConfig>)>) -> Seq<(Seq<char>, Seq<(Seq<char>, Option<Seq<char>>)>)> {
    r.map_values(|e: (Seq<char>, Vec<RawPatternConfig>)| (e.0, raw_list_view(e.1)))
}

/// The source text of pattern `j` of category `i`.
pub open spec fn source_at(r: Seq<(Seq<char>, Vec<RawPatternConfig>)>, i: int, j: int) -> Seq<char> {
    r[i].1@[j].regex@
}

/// Every pattern of the categories before `i`, and the first `j` of category
/// `i`, compile.
pub open spec fn compile_before(r: Seq<(Seq<char>, Vec<RawPatternConfig>)>, i: int, j: int) -> bool {
    &&& forall|a: int, b: int| 0 <= a < i && 0 <= b < r[a].1@.len() ==> regex_compiles(source_at(r, a, b))
    &&& forall|b: int| 0 <= b < j ==> regex_compiles(source_at(r, i, b))
}

/// Every pattern compiles.
pub open spec fn all_compile(r: Seq<(Seq<char>, Vec<RawPatternConfig>)>) -> bool {
    forall|a: int, b: int| 0 <= a < r.len() && 0 <= b < r[a].1@.len() ==> regex_compiles(source_at(r, a, b))
}

/// Pattern `j` of category `i` is the first, in table order and then list
/// order, that does not compile.
pub open spec fn first_invalid(r: Seq<(Seq<char>, Vec<RawPatternConfig>)>, i: int, j: int) -> bool {
    &&& 0 <= i < r.len()
    &&& 0 <= j < r[i].1@.len()
    &&& !regex_compiles(source_at(r, i, j))
    &&& compile_before(r, i, j)
}

/// A special rule without its name.
pub open spec fn strip_name(r: RawSpecialRule) -> SpecialRule {
    SpecialRule {
        start: r.start,
        end: r.end,
        start_column: r.start_column,
        min_length: r.min_length,
        regex: r.regex,
        token_type: r.token_type,
    }
}

/// A copy of an optional string.
pub(crate) fn clone_opt(o: &Option<String>) -> (r: Option<String>)
    ensures
        r == *o,
{
    match o {
        Some(s) => Some(s.clone()),
        None => None,
    }
}

/// Compiles every pattern list; fails on the first source text that does not
/// compile.
fn compile_patterns(raw: &Table<Vec<RawPatternConfig>>) -> (r: Result<Table<Vec<CompiledPatternConfig>>, ConfigError>)
    ensures
        r is Ok <==> all_compile(raw@),
        r matches Ok(c) ==> compiled_table_view(c@) == raw_table_view(raw@),
        r matches Err(e) ==> exists|i: int, j: int|
            first_invalid(raw@, i, j) && (e matches ConfigError::InvalidRegex(s) && s@ == source_at(raw@, i, j)),
{
    proof {
        use_type_invariant(raw);
    }
    let mut out: Table<Vec<CompiledPatternConfig>> = Table::new();
    let mut i: usize = 0;
    while i < raw.len()
        invariant
            i <= raw@.len(),
            keys(raw@).no_duplicates(),
            out@.len() == i,
            forall|k: int| 0 <= k < i ==> out@[k].0 == raw@[k].0,
            forall|k: int| 0 <= k < i ==> compiled_list_view(out@[k].1) == raw_list_view(raw@[k].1),
            compile_before(raw@, i as int, 0),
        decreases raw@.len() - i,
    {
        let (name, list) = raw.entry(i);
        let mut compiled: Vec<CompiledPatternConfig> = Vec::new();
        let mut j: usize = 0;
        while j < list.len()
            invariant
                i < raw@.len(),
                (name@, *list) == raw@[i as int],
                j <= list@.len(),
                compiled@.len() == j,
                forall|b: int| 0 <= b < j ==> compiled_pattern_view(compiled@[b]) == raw_pattern_view(list@[b]),
                compile_before(raw@, i as int, j as int),
            decreases list@.len() - j,
        {
            let p = &list[j];
            match Pattern::new(p.regex.as_str()) {
                Ok(pat) => {
                    compiled.push(CompiledPatternConfig { regex: pat, subcategory: clone_opt(&p.subcategory) });
                },
                Err(e) => {
                    assert(first_invalid(raw@, i as int, j as int));
                    return Err(e);
                },
            }
            j = j + 1;
        }
        assert(compiled_list_view(compiled) =~= raw_list_view(*list));
        proof {
            assert forall|k: int| 0 <= k < out@.len() implies out@[k].0 != name@ by {
                assert(keys(raw@)[k] == raw@[k].0);
                assert(keys(raw@)[i as int] == raw@[i as int].0);
            }
            lemma_key_index_absent(out@, name@);
        }
        out.insert(name.clone(), compiled);
        i = i + 1;
    }
    assert(compiled_table_view(out@) =~= raw_table_view(raw@));
    Ok(out)
}

/// Drops the names of special rules, keeping their order.
fn strip_names(rules: Vec<RawSpecialRule>) -> (r: Vec<SpecialRule>)
    ensures
        r@ == rules@.map_values(|x: RawSpecialRule| strip_name(x)),
{
    let mut out: Vec<SpecialRule> = Vec::new();
    for rule in it: rules
        invariant
            out@ == it.seq().subrange(0, it.index() as int).map_values(|x: RawSpecialRule| strip_name(x)),
    {
        out.push(SpecialRule {
            start: rule.start,
            end: rule.end,
            start_column: rule.start_column,
            min_length: rule.min_length,
            regex: rule.regex,
            token_type: rule.token_type,
        });
    }
    out
}

impl TokenizerConfig {
    /// Compiles a rule set. Fails with `InvalidRegex` naming the first pattern
    /// source that does not compile; otherwise with `MissingField` when the
    /// language version is empty. On success the categories, context rules,
    /// custom actions and imports are carried over unchanged, every pattern is
    /// compiled in place, and special rules lose their names, in order.
    pub fn from_raw(raw_config: RawTokenizerConfig) -> (r: Result<Self, ConfigError>)
        ensures
            r is Ok <==> all_compile(raw_config.patterns@) && raw_config.metadata.language_version@.len() > 0,
            !all_compile(raw_config.patterns@) ==> exists|i: int, j: int|
                first_invalid(raw_config.patterns@, i, j) && (r matches Err(ConfigError::InvalidRegex(s)) && s@ == source_at(raw_config.patterns@, i, j)),
            all_compile(raw_config.patterns@) && raw_config.metadata.language_version@.len() == 0 ==> (r matches Err(ConfigError::MissingField(f)) && f@ == "language_version"@),
            r matches Ok(c) ==> {
                &&& c.metadata == raw_config.metadata
                &&& c.token_categories == raw_config.token_categories
                &&& compiled_table_view(c.patterns@) == raw_table_view(raw_config.patterns@)
                &&& c.context_rules == raw_config.context_rules
                &&& c.custom_actions == raw_config.custom_actions
                &&& c.imports == raw_config.imports
                &&& c.special_rules@ == raw_config.special_rules@.map_values(|x: RawSpecialRule| strip_name(x))
            },
    {
        let RawTokenizerConfig { metadata, token_categories, patterns, context_rules, custom_actions, imports, special_rules } = raw_config;
        let compiled = match compile_patterns(&patterns) {
            Ok(c) => c,
            Err(e) => {
                return Err(e);
            },
        };
        let special_rules = strip_names(special_rules);
        if metadata.language_version.as_str().is_empty() {
            return Err(ConfigError::MissingField(String::from_str("language_version")));
        }
        Ok(TokenizerConfig {
            metadata,
            token_categories,
            patterns: compiled,
            context_rules,
            custom_actions,
            imports,
            special_rules,
        })
    }
    /// Merges `other` into this configuration. A category already defined
    /// here keeps its definition (the first writer wins) and new ones are
    /// added; pattern lists are concatenated per category, this one's first;
    /// context rules and custom actions of `other` replace same-named ones
    /// here (the last writer wins). Metadata, imports and special rules stay
    /// as they are.
    pub fn merge(&mut self, other: TokenizerConfig) -> (r: Result<(), ConfigError>)
        ensures
            r is Ok,
            final(self).token_categories@ == keep_first(old(self).token_categories@, other.token_categories@),
            list_view(final(self).patterns@) == append_lists(list_view(old(self).patterns@), list_view(other.patterns@)),
            final(self).context_rules@ == overwrite(old(self).context_rules@, other.context_rules@),
            final(self).custom_actions@ == overwrite(old(self).custom_actions@, other.custom_actions@),
            final(self).metadata == old(self).metadata,
            final(self).imports == old(self).imports,
            final(self).special_rules == old(self).special_rules,
    {
        let TokenizerConfig { token_categories, patterns, context_rules, custom_actions, .. } = other;
        self.token_categories.absorb_missing(token_categories);
        self.patterns.absorb_lists(patterns);
        self.context_rules.absorb_all(context_rules);
        self.custom_actions.absorb_all(custom_actions);
        Ok(())
    }

    /// The compiled patterns of `category`, if it has any entry.
    pub fn get_pattern(&self, category: &str) -> (r: Option<&Vec<CompiledPatternConfig>>)
        ensures
            r matches Some(v) ==> lookup(self.patterns@, category@) == Some(*v),
            r is None ==> lookup(self.patterns@, category@) is None,
    {
        self.patterns.get(category)
    }

    /// Appends `pattern` to the list of `category`, creating the list when
    /// the category has none.
    pub fn add_pattern(&mut self, category: String, pattern: CompiledPatternConfig)
        ensures
            list_view(final(self).patterns@) == append_lists(list_view(old(self).patterns@), seq![(category@, seq![pattern])]),
            final(self).token_categories == old(self).token_categories,
            final(self).context_rules == old(self).context_rules,
            final(self).custom_actions == old(self).custom_actions,
            final(self).metadata == old(self).metadata,
            final(self).imports == old(self).imports,
            final(self).special_rules == old(self).special_rules,
    {
        let ghost b = seq![(category@, seq![pattern])];
        let ghost m = list_view(self.patterns@);
        assert(b.drop_last() =~= Seq::<(Seq<char>, Seq<CompiledPatternConfig>)>::empty());
        assert(append_lists(m, b.drop_last()) == m);
        assert(b.last() == (category@, seq![pattern]));
        proof {
            lemma_key_index_bounds(self.patterns@, category@);
            lemma_key_index_list_view(self.patterns@, category@);
        }
        match self.patterns.position(category.as_str()) {
            Some(i) => {
                let mut list = self.patterns.replace_value(i, Vec::new());
                let ghost before = list@;
                list.push(pattern);
                assert(list@ =~= before + seq![pattern]);
                let _ = self.patterns.replace_value(i, list);
                assert(list_view(self.patterns@) =~= m.update(i as int, (m[i as int].0, m[i as int].1 + b.last().1)));
            },
            None => {
                let mut list: Vec<CompiledPatternConfig> = Vec::new();
                list.push(pattern);
                self.patterns.insert(category, list);
                assert(list_view(self.patterns@) =~= m.push(b.last()));
            },
        }
    }

    /// The context rule named `name`, if any.
    pub fn get_context_rule(&self, name: &str) -> (r: Option<&ContextRule>)
        ensures
            r matches Some(v) ==> lookup(self.context_rules@, name@) == Some(*v),
            r is None ==> lookup(self.context_rules@, name@) is None,
    {
        self.context_rules.get(name)
    }

    /// Stores `rule` under `name`, replacing any rule of that name.
    pub fn add_context_rule(&mut self, name: String, rule: ContextRule)
        ensures
            final(self).context_rules@ == upsert(old(self).context_rules@, name@, rule),
            final(self).token_categories == old(self).token_categories,
            final(self).patterns == old(self).patterns,
            final(self).custom_actions == old(self).custom_actions,
            final(self).metadata == old(self).metadata,
            final(self).imports == old(self).imports,
            final(self).special_rules == old(self).special_rules,
    {
        self.context_rules.insert(name, rule);
    }

    /// The custom action named `name`, if any.
    pub fn get_custom_action(&self, name: &str) -> (r: Option<&CustomAction>)
        ensures
            r matches Some(v) ==> lookup(self.custom_actions@, name@) == Some(*v),
            r is None ==> lookup(self.custom_actions@, name@) is None,
    {
        self.custom_actions.get(name)
    }

    /// Stores `action` under `name`, replacing any action of that name.
    pub fn add_custom_action(&mut self, name: String, action: CustomAction)
        ensures
            final(self).custom_actions@ == upsert(old(self).custom_actions@, name@, action),
            final(self).token_categories == old(self).token_categories,
            final(self).patterns == old(self).patterns,
            final(self).context_rules == old(self).context_rules,
            final(self).metadata == old(self).metadata,
            final(self).imports == old(self).imports,
            final(self).special_rules == old(self).special_rules,
    {
        self.custom_actions.insert(name, action);
    }
}

/// Merging is asymmetric. For a name present in both `base` and `other`,
/// the merged configuration (as `merge` describes it) keeps `base`'s category
/// definition, takes `other`'s context rule and custom action, and holds
/// `base`'s pattern list followed by `other`'s.
pub proof fn lemma_merge_asymmetry(base: TokenizerConfig, other: TokenizerConfig, k: Seq<char>)
    requires
        keys(other.context_rules@).no_duplicates(),
        keys(other.custom_actions@).no_duplicates(),
        keys(other.patterns@).no_duplicates(),
    ensures
        lookup(base.token_categories@, k) is Some && lookup(other.token_categories@, k) is Some
            ==> lookup(keep_first(base.token_categories@, other.token_categories@), k) == lookup(
            base.token_categories@,
            k,
        ),
        lookup(base.context_rules@, k) is Some && lookup(other.context_rules@, k) is Some
            ==> lookup(overwrite(base.context_rules@, other.context_rules@), k) == lookup(
            other.context_rules@,
            k,
        ),
        lookup(base.custom_actions@, k) is Some && lookup(other.custom_actions@, k) is Some
            ==> lookup(overwrite(base.custom_actions@, other.custom_actions@), k) == lookup(
            other.custom_actions@,
            k,
        ),
        lookup(list_view(base.patterns@), k) is Some && lookup(list_view(other.patterns@), k) is Some
            ==> lookup(append_lists(list_view(base.patterns@), list_view(other.patterns@)), k)
            == Some(
            lookup(list_view(base.patterns@), k)->Some_0 + lookup(list_view(other.patterns@), k)->Some_0,
        ),
{
    if lookup(base.token_categories@, k) is Some {
        lemma_keep_first_keeps(base.token_categories@, other.token_categories@, k);
    }
    if lookup(other.context_rules@, k) is Some {
        lemma_overwrite_takes(base.context_rules@, other.context_rules@, k);
    }
    if lookup(other.custom_actions@, k) is Some {
        lemma_overwrite_takes(base.custom_actions@, other.custom_actions@, k);
    }
    let bl = list_view(base.patterns@);
    let ol = list_view(other.patterns@);
    assert(keys(ol) =~= keys(other.patterns@));
    if lookup(bl, k) is Some && lookup(ol, k) is Some {
        lemma_append_lists_concat(bl, ol, k);
    }
}

/// The value of one attribute of a special rule.
#[derive(Debug, Clone, PartialEq, Eq)]
pub enum RuleAttribute {
    /// A text attribute (`start`, `end`, `regex`).
    Text(String),
    /// A numeric attribute (`min_length`, `start_column`).
    Number(usize),
}

impl SpecialRule {
    /// The value of the attribute named `attr`, when the rule has it.
    pub open spec fn attribute(&self, attr: Seq<char>) -> Option<RuleAttribute> {
        if attr == "start"@ {
            Some(RuleAttribute::Text(self.start))
        } else if attr == "end"@ {
            match self.end {
                Some(e) => Some(RuleAttribute::Text(e)),
                None => None,
            }
        } else if attr == "regex"@ {
            match self.regex {
                Some(e) => Some(RuleAttribute::Text(e)),
                None => None,
            }
        } else if attr == "min_length"@ {
            match self.min_length {
                Some(n) => Some(RuleAttribute::Number(n)),
                None => None,
            }
        } else if attr == "start_column"@ {
            match self.start_column {
                Some(n) => Some(RuleAttribute::Number(n)),
                None => None,
            }
        } else {
            None
        }
    }

    /// The value of the attribute named `attr` (`start`, `end`, `regex`,
    /// `min_length` or `start_column`), when the rule has it; `None` for an
    /// absent optional attribute or an unknown name.
    pub fn get_attribute(&self, attr: &str) -> (r: Option<RuleAttribute>)
        ensures
            r == self.attribute(attr@),
    {
        let a = attr.to_owned();
        if a == String::from_str("start") {
            Some(RuleAttribute::Text(self.start.clone()))
        } else if a == String::from_str("end") {
            match &self.end {
                Some(e) => Some(RuleAttribute::Text(e.clone())),
                None => None,
            }
        } else if a == String::from_str("regex") {
            match &self.regex {
                Some(e) => Some(RuleAttribute::Text(e.clone())),
                None => None,
            }
        } else if a == String::from_str("min_length") {
            match self.min_length {
                Some(n) => Some(RuleAttribute::Number(n)),
                None => None,
            }
        } else if a == String::from_str("start_column") {
            match self.start_column {
                Some(n) => Some(RuleAttribute::Number(n)),
                None => None,
            }
        } else {
            None
        }
    }
}

} // verus!
