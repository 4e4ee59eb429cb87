//! The scan engine: turns an input text into classified, positioned tokens.
use vstd::prelude::*;
use vstd::string::*;

use crate::config::{clone_opt, CompiledPatternConfig, SpecialRule, TokenizerConfig};
use crate::error::TokenizerError;
use crate::pattern::{anchored_match, leftmost_match, regex_compiles, Pattern};
use crate::table::{key_index, lemma_key_index_bounds, lookup};
use crate::text::{
    byte_len, char_width, chars_of, find_from, first_occurrence, is_white, lemma_byte_len_prefix,
    lemma_byte_len_push, lemma_byte_len_split, occurs_at, occurs_at_exec, suffix_from, white_space,
};
use crate::token::{Token, TokenType};

verus! {

/// The cursor's (line, column) after consuming `c` at `lc`.
pub open spec fn step(c: char, lc: (int, int)) -> (int, int) {
    if c == '\n' { (lc.0 + 1, 1) } else { (lc.0, lc.1 + 1) }
}

/// The cursor's (line, column) after consuming `s` from the start of a text.
pub open spec fn walk(s: Seq<char>) -> (int, int)
    decreases s.len(),
{
    if s.len() == 0 { (1, 1) } else { step(s.last(), walk(s.drop_last())) }
}

/// The index of the first character at or after `i` that is not whitespace,
/// or the length of `s` when there is none.
pub open spec fn skip_white(s: Seq<char>, i: int) -> int
    decreases s.len() - i,
{
    if i < 0 || i >= s.len() {
        s.len() as int
    } else if white_space(s[i]) {
        skip_white(s, i + 1)
    } else {
        i
    }
}

/// The bound that a rule's `end` marker puts on the match: just past the
/// first occurrence of the marker after the `start` marker.
pub open spec fn end_bound(rule: SpecialRule, rem: Seq<char>) -> Option<int> {
    match rule.end {
        None => Some(rem.len() as int),
        Some(e) => match first_occurrence(rem, e@, rule.start@.len() as int) {
            Some(p) => Some(p + e@.len()),
            None => None,
        },
    }
}

/// The bound that a rule's `regex` puts on the match: the end of its match at
/// the start of the remaining input.
pub open spec fn regex_bound(rule: SpecialRule, rem: Seq<char>) -> Option<int> {
    match rule.regex {
        None => Some(rem.len() as int),
        Some(src) => if regex_compiles(src@) {
            match anchored_match(src@, rem) {
                Some(t) => Some(t.len() as int),
                None => None,
            }
        } else {
            None
        },
    }
}

/// The number of characters a special rule matches at the start of `rem` when
/// the cursor is at `column`: the least bound of its present constraints, or
/// `None` when one of them fails.
pub open spec fn rule_span(rule: SpecialRule, rem: Seq<char>, column: int) -> Option<int> {
    if !rule.start@.is_prefix_of(rem) {
        None
    } else if end_bound(rule, rem) is None || regex_bound(rule, rem) is None {
        None
    } else if rule.min_length matches Some(m) && byte_len(rem) < m {
        None
    } else if rule.start_column matches Some(c) && column != c {
        None
    } else {
        let a = end_bound(rule, rem)->Some_0;
        let b = regex_bound(rule, rem)->Some_0;
        Some(if a <= b { a } else { b })
    }
}

/// A special rule produces a token: all its constraints hold and its span is
/// not empty.
pub open spec fn rule_fires(rule: SpecialRule, rem: Seq<char>, column: int) -> bool {
    rule_span(rule, rem, column) matches Some(n) && n > 0
}

/// Rule `i` is the first rule, in declaration order, that fires.
pub open spec fn special_winner(rules: Seq<SpecialRule>, rem: Seq<char>, column: int, i: int) -> bool {
    &&& 0 <= i < rules.len()
    &&& rule_fires(rules[i], rem, column)
    &&& forall|j: int| 0 <= j < i ==> !rule_fires(rules[j], rem, column)
}

/// The special rule that decides the next token, if any.
pub open spec fn special_choice(rules: Seq<SpecialRule>, rem: Seq<char>, column: int) -> Option<int> {
    if exists|i: int| special_winner(rules, rem, column, i) {
        Some(choose|i: int| special_winner(rules, rem, column, i))
    } else {
        None
    }
}

/// A pattern matches a non-empty text at the very start of `rem`.
pub open spec fn hit(p: CompiledPatternConfig, rem: Seq<char>) -> bool {
    anchored_match(p.regex@, rem) matches Some(t) && t.len() > 0
}

/// Some pattern of the list hits.
pub open spec fn has_hit(list: Seq<CompiledPatternConfig>, rem: Seq<char>) -> bool {
    exists|j: int| 0 <= j < list.len() && hit(list[j], rem)
}

/// Pattern `j` is the first of the list, in declaration order, that hits.
pub open spec fn first_hit(list: Seq<CompiledPatternConfig>, rem: Seq<char>, j: int) -> bool {
    &&& 0 <= j < list.len()
    &&& hit(list[j], rem)
    &&& forall|k: int| 0 <= k < j ==> !hit(list[k], rem)
}

/// The scanning rank of the category of pattern entry `p`: its priority and
/// its place among the category definitions; a category without a definition
/// ranks after every defined one, by its place among the pattern entries.
pub open spec fn category_rank(cfg: TokenizerConfig, p: int) -> (int, int) {
    let k = key_index(cfg.token_categories@, cfg.patterns@[p].0);
    if 0 <= k {
        (cfg.token_categories@[k].1.priority as int, k)
    } else {
        (0x1_0000_0000, p)
    }
}

/// Rank `a` comes strictly before rank `b`.
pub open spec fn rank_less(a: (int, int), b: (int, int)) -> bool {
    a.0 < b.0 || (a.0 == b.0 && a.1 < b.1)
}

/// The category of pattern entry `p` is tried before that of entry `q`.
pub open spec fn tried_before(cfg: TokenizerConfig, p: int, q: int) -> bool {
    rank_less(category_rank(cfg, p), category_rank(cfg, q)) || (category_rank(cfg, p)
        == category_rank(cfg, q) && p < q)
}

/// Pattern `j` of entry `p` decides the next token: it is the first hit of
/// the first category, in scanning order, that has a hit.
pub open spec fn pattern_winner(cfg: TokenizerConfig, rem: Seq<char>, p: int, j: int) -> bool {
    &&& 0 <= p < cfg.patterns@.len()
    &&& first_hit(cfg.patterns@[p].1@, rem, j)
    &&& forall|q: int|
        0 <= q < cfg.patterns@.len() && q != p && has_hit(cfg.patterns@[q].1@, rem) ==> tried_before(
            cfg,
            p,
            q,
        )
}

/// The pattern that decides the next token, if any.
pub open spec fn pattern_choice(cfg: TokenizerConfig, rem: Seq<char>) -> Option<(int, int)> {
    if exists|pj: (int, int)| pattern_winner(cfg, rem, pj.0, pj.1) {
        Some(choose|pj: (int, int)| pattern_winner(cfg, rem, pj.0, pj.1))
    } else {
        None
    }
}

/// The classification and length of the token at the start of `rem`, when
/// the cursor is at `column`: a special rule first, then a pattern, and
/// otherwise one character of category `Unknown`.
pub open spec fn expected_token(cfg: TokenizerConfig, rem: Seq<char>, column: int) -> ((Seq<char>, Option<Seq<char>>), int) {
    match special_choice(cfg.special_rules@, rem, column) {
        Some(i) => (
            (cfg.special_rules@[i].token_type@, None),
            rule_span(cfg.special_rules@[i], rem, column)->Some_0,
        ),
        None => match pattern_choice(cfg, rem) {
            Some(pj) => (
                (
                    cfg.patterns@[pj.0].0,
                    cfg.patterns@[pj.0].1@[pj.1].subcategory.deep_view(),
                ),
                anchored_match(cfg.patterns@[pj.0].1@[pj.1].regex@, rem)->Some_0.len() as int,
            ),
            None => (("Unknown"@, None), 1),
        },
    }
}

/// Line and column never exceed one more than the characters consumed.
pub proof fn lemma_walk_bounds(s: Seq<char>)
    ensures
        1 <= walk(s).0 <= s.len() + 1,
        1 <= walk(s).1 <= s.len() + 1,
    decreases s.len(),
{
    if s.len() > 0 {
        lemma_walk_bounds(s.drop_last());
    }
}

/// A text has at least as many bytes as characters.
pub proof fn lemma_chars_le_bytes(s: Seq<char>)
    ensures
        s.len() <= byte_len(s),
    decreases s.len(),
{
    if s.len() > 0 {
        lemma_chars_le_bytes(s.drop_last());
        lemma_byte_len_push(s, s.len() - 1);
        assert(s.subrange(0, s.len() - 1) =~= s.drop_last());
        assert(s.subrange(0, s.len() as int) =~= s);
        vstd::utf8::char_is_scalar(s.last());
    }
}

/// The bound of the rule's `end` marker on the match in `rem`.
fn end_bound_of(rule: &SpecialRule, rem: &str) -> (r: Option<usize>)
    ensures
        r matches Some(n) ==> end_bound(*rule, rem@) == Some(n as int) && n <= rem@.len(),
        r is None ==> end_bound(*rule, rem@) is None,
{
    match &rule.end {
        None => Some(rem.unicode_len()),
        Some(e) => {
            let rem_chars = chars_of(rem);
            let start_len = rule.start.as_str().unicode_len();
            let end_chars = chars_of(e.as_str());
            match find_from(&rem_chars, &end_chars, start_len) {
                Some(p) => {
                    assert(occurs_at(rem_chars@, end_chars@, p as int));
                    let n = rem_chars.len();
                    assert(p + end_chars@.len() <= n);
                    Some(p + end_chars.len())
                },
                None => None,
            }
        },
    }
}

/// The bound of the rule's `regex` on the match in `rem`.
fn regex_bound_of(rule: &SpecialRule, rem: &str) -> (r: Option<usize>)
    ensures
        r matches Some(n) ==> regex_bound(*rule, rem@) == Some(n as int) && n <= rem@.len(),
        r is None ==> regex_bound(*rule, rem@) is None,
{
    match &rule.regex {
        None => Some(rem.unicode_len()),
        Some(src) => match Pattern::new(src.as_str()) {
            Err(_) => None,
            Ok(pat) => match pat.match_at_start(rem) {
                Some(t) => Some(t.as_str().unicode_len()),
                None => None,
            },
        },
    }
}

/// The first pattern of `list`, in declaration order, that matches a
/// non-empty text at the start of `rem`, with that text.
fn first_hit_in(list: &Vec<CompiledPatternConfig>, rem: &str) -> (r: Option<(usize, String)>)
    ensures
        r matches Some(m) ==> first_hit(list@, rem@, m.0 as int) && anchored_match(list@[m.0 as int].regex@, rem@) == Some(m.1@) && m.1@.is_prefix_of(rem@),
        r is None ==> !has_hit(list@, rem@),
{
    let mut j: usize = 0;
    while j < list.len()
        invariant
            j <= list@.len(),
            forall|k: int| 0 <= k < j ==> !hit(list@[k], rem@),
        decreases list@.len() - j,
    {
        match list[j].regex.match_at_start(rem) {
            Some(t) => {
                if !t.as_str().is_empty() {
                    return Some((j, t));
                }
            },
            None => {},
        }
        j = j + 1;
    }
    None
}

/// Skipping whitespace never moves backwards, nor past the end, and stops
/// at a character that is not whitespace.
pub proof fn lemma_skip_white_bounds(s: Seq<char>, i: int)
    requires
        0 <= i <= s.len(),
    ensures
        i <= skip_white(s, i) <= s.len(),
        skip_white(s, i) < s.len() ==> !white_space(s[skip_white(s, i)]),
    decreases s.len() - i,
{
    if i < s.len() && white_space(s[i]) {
        lemma_skip_white_bounds(s, i + 1);
    }
}

/// The first special rule that fires is the one chosen.
pub proof fn lemma_special_choice(rules: Seq<SpecialRule>, rem: Seq<char>, column: int, i: int)
    requires
        special_winner(rules, rem, column, i),
    ensures
        special_choice(rules, rem, column) == Some(i),
{
    let c = choose|c: int| special_winner(rules, rem, column, c);
    assert(special_winner(rules, rem, column, c));
    if c < i {
        assert(!rule_fires(rules[c], rem, column));
    } else if c > i {
        assert(!rule_fires(rules[i], rem, column));
    }
}

/// When no pattern entry has a hit, no pattern is chosen.
pub proof fn lemma_pattern_none(cfg: TokenizerConfig, rem: Seq<char>)
    requires
        forall|q: int| 0 <= q < cfg.patterns@.len() ==> !has_hit(cfg.patterns@[q].1@, rem),
    ensures
        pattern_choice(cfg, rem) is None,
{
    assert forall|pj: (int, int)| !pattern_winner(cfg, rem, pj.0, pj.1) by {
        if pattern_winner(cfg, rem, pj.0, pj.1) {
            assert(has_hit(cfg.patterns@[pj.0].1@, rem));
        }
    }
}

/// The winning pattern is the one chosen.
pub proof fn lemma_pattern_choice(cfg: TokenizerConfig, rem: Seq<char>, p: int, j: int)
    requires
        pattern_winner(cfg, rem, p, j),
    ensures
        pattern_choice(cfg, rem) == Some((p, j)),
{
    assert(pattern_winner(cfg, rem, (p, j).0, (p, j).1));
    let c = choose|pj: (int, int)| pattern_winner(cfg, rem, pj.0, pj.1);
    assert(pattern_winner(cfg, rem, c.0, c.1));
    if c.0 != p {
        assert(has_hit(cfg.patterns@[c.0].1@, rem));
        assert(has_hit(cfg.patterns@[p].1@, rem));
        assert(tried_before(cfg, p, c.0));
        assert(tried_before(cfg, c.0, p));
    } else if c.1 < j {
        assert(!hit(cfg.patterns@[p].1@[c.1], rem));
    } else if c.1 > j {
        assert(!hit(cfg.patterns@[p].1@[j], rem));
    }
}

/// Scanning order is transitive.
proof fn lemma_tried_before_trans(cfg: TokenizerConfig, a: int, b: int, c: int)
    requires
        tried_before(cfg, a, b),
        tried_before(cfg, b, c),
    ensures
        tried_before(cfg, a, c),
{
}

/// Of the pattern entries before `n`, one that has a hit comes first in
/// scanning order among those that have one.
proof fn lemma_best_upto(cfg: TokenizerConfig, rem: Seq<char>, n: int) -> (b: int)
    requires
        0 <= n <= cfg.patterns@.len(),
        exists|q: int| 0 <= q < n && has_hit(cfg.patterns@[q].1@, rem),
    ensures
        0 <= b < n,
        has_hit(cfg.patterns@[b].1@, rem),
        forall|q: int| 0 <= q < n && q != b && has_hit(cfg.patterns@[q].1@, rem) ==> tried_before(cfg, b, q),
    decreases n,
{
    let last = n - 1;
    if exists|q: int| 0 <= q < last && has_hit(cfg.patterns@[q].1@, rem) {
        let b0 = lemma_best_upto(cfg, rem, last);
        if has_hit(cfg.patterns@[last].1@, rem) && tried_before(cfg, last, b0) {
            assert forall|q: int| 0 <= q < n && q != last && has_hit(cfg.patterns@[q].1@, rem) implies tried_before(cfg, last, q) by {
                if q != b0 {
                    lemma_tried_before_trans(cfg, last, b0, q);
                }
            }
            last
        } else {
            b0
        }
    } else {
        last
    }
}

/// A list with a hit has a first hit.
proof fn lemma_first_hit_exists(list: Seq<CompiledPatternConfig>, rem: Seq<char>, w: int)
    requires
        0 <= w < list.len(),
        hit(list[w], rem),
    ensures
        exists|j: int| first_hit(list, rem, j),
    decreases w,
{
    if exists|j: int| 0 <= j < w && hit(list[j], rem) {
        let j = choose|j: int| 0 <= j < w && hit(list[j], rem);
        lemma_first_hit_exists(list, rem, j);
    } else {
        assert(first_hit(list, rem, w));
    }
}

/// When some pattern hits, a pattern is chosen.
proof fn lemma_pattern_exists(cfg: TokenizerConfig, rem: Seq<char>, q: int)
    requires
        0 <= q < cfg.patterns@.len(),
        has_hit(cfg.patterns@[q].1@, rem),
    ensures
        pattern_choice(cfg, rem) is Some,
{
    let b = lemma_best_upto(cfg, rem, cfg.patterns@.len() as int);
    let list = cfg.patterns@[b].1@;
    let w = choose|w: int| 0 <= w < list.len() && hit(list[w], rem);
    lemma_first_hit_exists(list, rem, w);
    let j = choose|j: int| first_hit(list, rem, j);
    assert(pattern_winner(cfg, rem, (b, j).0, (b, j).1));
}

/// Lower priority values are tried first. When patterns of two defined
/// categories both match at the cursor, the category with the larger
/// priority value is not the one chosen, whatever the order of the entries;
/// when no other category matches, the one with the smaller value is chosen.
pub proof fn lemma_priority_order(cfg: TokenizerConfig, rem: Seq<char>, p: int, q: int)
    requires
        0 <= p < cfg.patterns@.len(),
        0 <= q < cfg.patterns@.len(),
        has_hit(cfg.patterns@[p].1@, rem),
        has_hit(cfg.patterns@[q].1@, rem),
        lookup(cfg.token_categories@, cfg.patterns@[p].0) matches Some(dp) && lookup(
            cfg.token_categories@,
            cfg.patterns@[q].0,
        ) matches Some(dq) && dp.priority < dq.priority,
    ensures
        pattern_choice(cfg, rem) matches Some(w) && w.0 != q,
        (forall|r: int| 0 <= r < cfg.patterns@.len() && r != p && r != q ==> !has_hit(cfg.patterns@[r].1@, rem))
            ==> (pattern_choice(cfg, rem) matches Some(w) && w.0 == p),
{
    lemma_pattern_exists(cfg, rem, p);
    let w = choose|pj: (int, int)| pattern_winner(cfg, rem, pj.0, pj.1);
    assert(pattern_winner(cfg, rem, w.0, w.1));
    lemma_pattern_choice(cfg, rem, w.0, w.1);
    if w.0 == q {
        assert(tried_before(cfg, q, p));
    }
    if w.0 != p && w.0 != q {
        assert(has_hit(cfg.patterns@[w.0].1@, rem));
    }
}

/// Only matches at the cursor count: a pattern whose leftmost match in the
/// remaining input starts further on, or that does not match at all, is
/// never chosen.
pub proof fn lemma_anchoring(cfg: TokenizerConfig, rem: Seq<char>, p: int, j: int)
    requires
        0 <= p < cfg.patterns@.len(),
        0 <= j < cfg.patterns@[p].1@.len(),
        !(leftmost_match(cfg.patterns@[p].1@[j].regex@, rem) matches Some(m) && m.0 == 0),
    ensures
        pattern_choice(cfg, rem) != Some((p, j)),
{
    assert(!hit(cfg.patterns@[p].1@[j], rem));
    if pattern_choice(cfg, rem) == Some((p, j)) {
        let c = choose|pj: (int, int)| pattern_winner(cfg, rem, pj.0, pj.1);
        assert(pattern_winner(cfg, rem, c.0, c.1));
    }
}

/// Special rules come first: when a special rule fires at the cursor, the
/// token has the type of the first rule that fires, without subcategory, and
/// that rule's span, whatever the patterns would match.
pub proof fn lemma_special_first(cfg: TokenizerConfig, rem: Seq<char>, column: int, i: int)
    requires
        special_winner(cfg.special_rules@, rem, column, i),
    ensures
        expected_token(cfg, rem, column) == (
            (cfg.special_rules@[i].token_type@, None::<Seq<char>>),
            rule_span(cfg.special_rules@[i], rem, column)->Some_0,
        ),
{
    lemma_special_choice(cfg.special_rules@, rem, column, i);
}

/// A special rule with only a start marker spans the whole remaining input.
pub proof fn lemma_open_ended(rule: SpecialRule, rem: Seq<char>, column: int)
    requires
        rule.end is None,
        rule.regex is None,
        rule.min_length is None,
        rule.start_column is None,
        rule.start@.is_prefix_of(rem),
    ensures
        rule_span(rule, rem, column) == Some(rem.len() as int),
{
}

/// With no special rule firing and no pattern matching at the cursor, the
/// token is a single character of category `Unknown`.
pub proof fn lemma_unknown_fallback(cfg: TokenizerConfig, rem: Seq<char>, column: int)
    requires
        forall|i: int| 0 <= i < cfg.special_rules@.len() ==> !rule_fires(cfg.special_rules@[i], rem, column),
        forall|q: int| 0 <= q < cfg.patterns@.len() ==> !has_hit(cfg.patterns@[q].1@, rem),
    ensures
        expected_token(cfg, rem, column) == (("Unknown"@, None::<Seq<char>>), 1int),
{
    if special_choice(cfg.special_rules@, rem, column) is Some {
        let i = choose|i: int| special_winner(cfg.special_rules@, rem, column, i);
        assert(rule_fires(cfg.special_rules@[i], rem, column));
    }
    lemma_pattern_none(cfg, rem);
}

/// A cursor that stands after the first `index` characters of `text`: its
/// byte offset is their encoded length, and its line and column are where
/// walking them from line 1, column 1 ends.
pub open spec fn cursor_at(text: Seq<char>, index: int, position: int, line: int, column: int) -> bool {
    &&& 0 <= index <= text.len()
    &&& position == byte_len(text.subrange(0, index))
    &&& (line, column) == walk(text.subrange(0, index))
}

/// The scan engine: an input text, a compiled configuration, and a cursor.
pub struct FlexibleTokenizer<'a> {
    input: &'a str,
    chars: Vec<char>,
    config: TokenizerConfig,
    index: usize,
    position: usize,
    line: usize,
    column: usize,
}

impl<'a> FlexibleTokenizer<'a> {
    /// The input text.
    pub closed spec fn text(&self) -> Seq<char> {
        self.input@
    }

    /// The configuration the engine scans with.
    pub closed spec fn config(&self) -> TokenizerConfig {
        self.config
    }

    /// The number of characters consumed.
    pub closed spec fn cur_index(&self) -> int {
        self.index as int
    }

    /// The byte offset of the cursor.
    pub closed spec fn cur_position(&self) -> int {
        self.position as int
    }

    /// The cursor's 1-based line.
    pub closed spec fn cur_line(&self) -> int {
        self.line as int
    }

    /// The cursor's 1-based column.
    pub closed spec fn cur_column(&self) -> int {
        self.column as int
    }

    /// The cursor agrees with the consumed part of the text: the byte offset
    /// is its encoded length, and line and column are where walking it ends.
    pub closed spec fn wf(&self) -> bool {
        &&& self.chars@ == self.input@
        &&& self.index <= self.chars@.len()
        &&& byte_len(self.chars@) < usize::MAX
        &&& self.position == byte_len(self.chars@.subrange(0, self.index as int))
        &&& (self.line as int, self.column as int) == walk(self.chars@.subrange(0, self.index as int))
    }

    /// The cursor agrees with the part of the text consumed so far.
    pub open spec fn cursor_ok(&self) -> bool {
        cursor_at(self.text(), self.cur_index(), self.cur_position(), self.cur_line(), self.cur_column())
    }

    /// A well-formed engine's cursor agrees with the text consumed so far.
    pub proof fn lemma_cursor(&self)
        requires
            self.wf(),
        ensures
            self.cursor_ok(),
            byte_len(self.text()) < usize::MAX,
    {
    }

    /// The text not consumed yet.
    pub open spec fn rest(&self) -> Seq<char> {
        self.text().subrange(self.cur_index(), self.text().len() as int)
    }

    /// An engine at the start of `input`.
    pub fn new(input: &'a str, config: TokenizerConfig) -> (r: Self)
        requires
            byte_len(input@) < usize::MAX,
        ensures
            r.wf(),
            r.text() == input@,
            r.config() == config,
            r.cursor_ok(),
            r.cur_index() == 0,
            r.cur_position() == 0,
            r.cur_line() == 1,
            r.cur_column() == 1,
    {
        let chars = chars_of(input);
        proof {
            assert(chars@.subrange(0, 0) =~= Seq::<char>::empty());
        }
        FlexibleTokenizer { input, chars, config, index: 0, position: 0, line: 1, column: 1 }
    }

    /// The byte offset of the cursor.
    pub fn position(&self) -> (r: usize)
        ensures
            r == self.cur_position(),
    {
        self.position
    }

    /// The cursor's 1-based line.
    pub fn line(&self) -> (r: usize)
        ensures
            r == self.cur_line(),
    {
        self.line
    }

    /// The cursor's 1-based column.
    pub fn column(&self) -> (r: usize)
        ensures
            r == self.cur_column(),
    {
        self.column
    }

    /// Consumes one character and returns it: the byte offset grows by its
    /// encoded width, and a newline moves to column 1 of the next line while
    /// any other character moves one column right. At the end of the text
    /// nothing moves and `'\0'` is returned.
    pub fn advance(&mut self) -> (c: char)
        requires
            old(self).wf(),
        ensures
            final(self).wf(),
            final(self).cursor_ok(),
            final(self).text() == old(self).text(),
            final(self).config() == old(self).config(),
            old(self).cur_index() < old(self).text().len() ==> {
                &&& c == old(self).text()[old(self).cur_index()]
                &&& final(self).cur_index() == old(self).cur_index() + 1
                &&& final(self).cur_position() == old(self).cur_position() + char_width(c)
                &&& (final(self).cur_line(), final(self).cur_column()) == step(
                    c,
                    (old(self).cur_line(), old(self).cur_column()),
                )
            },
            old(self).cur_index() == old(self).text().len() ==> {
                &&& c == '\0'
                &&& final(self).cur_index() == old(self).cur_index()
                &&& final(self).cur_position() == old(self).cur_position()
                &&& final(self).cur_line() == old(self).cur_line()
                &&& final(self).cur_column() == old(self).cur_column()
            },
    {
        if self.index >= self.chars.len() {
            return '\0';
        }
        let ch = self.chars[self.index];
        let ghost s = self.chars@;
        let ghost i = self.index as int;
        proof {
            lemma_byte_len_push(s, i);
            lemma_byte_len_prefix(s, i + 1);
            lemma_walk_bounds(s.subrange(0, i));
            lemma_chars_le_bytes(s);
            assert(s.subrange(0, i + 1).drop_last() =~= s.subrange(0, i));
        }
        let w = crate::text::utf8_width(ch);
        self.position = self.position + w;
        self.index = self.index + 1;
        if ch == '\n' {
            self.line = self.line + 1;
            self.column = 1;
        } else {
            self.column = self.column + 1;
        }
        ch
    }

    /// Advances past whitespace.
    fn skip_whitespace(&mut self)
        requires
            old(self).wf(),
        ensures
            final(self).wf(),
            final(self).text() == old(self).text(),
            final(self).config() == old(self).config(),
            final(self).cur_index() == skip_white(old(self).text(), old(self).cur_index()),
    {
        while self.index < self.chars.len() && is_white(self.chars[self.index])
            invariant
                self.wf(),
                self.text() == old(self).text(),
                self.config() == old(self).config(),
                skip_white(self.text(), self.cur_index()) == skip_white(old(self).text(), old(self).cur_index()),
            decreases self.chars@.len() - self.index,
        {
            self.advance();
        }
    }
    /// The span of `rule` at the cursor, given the remaining input `rem`.
    fn rule_span_at(&self, rule: &SpecialRule, rem: &str) -> (r: Option<usize>)
        requires
            self.wf(),
            rem@ == self.rest(),
        ensures
            r matches Some(n) ==> rule_span(*rule, self.rest(), self.cur_column()) == Some(n as int) && n <= self.rest().len(),
            r is None ==> rule_span(*rule, self.rest(), self.cur_column()) is None,
    {
        if !self.rest_starts_with(&rule.start) {
            return None;
        }
        let bound_end = match end_bound_of(rule, rem) {
            Some(n) => n,
            None => {
                return None;
            },
        };
        let bound_regex = match regex_bound_of(rule, rem) {
            Some(n) => n,
            None => {
                return None;
            },
        };
        if let Some(m) = rule.min_length {
            if self.rest_bytes() < m {
                return None;
            }
        }
        if let Some(c) = rule.start_column {
            if self.column != c {
                return None;
            }
        }
        if bound_end <= bound_regex {
            Some(bound_end)
        } else {
            Some(bound_regex)
        }
    }

    /// Whether the remaining input begins with `marker`.
    fn rest_starts_with(&self, marker: &String) -> (r: bool)
        requires
            self.wf(),
        ensures
            r == marker@.is_prefix_of(self.rest()),
    {
        let ghost rest = self.rest();
        let ghost text = self.text();
        let ghost i = self.index as int;
        let marker_chars = chars_of(marker.as_str());
        let starts = occurs_at_exec(&self.chars, &marker_chars, self.index);
        proof {
            if marker_chars@.len() <= rest.len() {
                assert(rest.subrange(0, marker_chars@.len() as int) =~= text.subrange(
                    i,
                    i + marker_chars@.len(),
                ));
            }
        }
        starts
    }

    /// The number of bytes not consumed yet.
    fn rest_bytes(&self) -> (r: usize)
        requires
            self.wf(),
        ensures
            r == byte_len(self.rest()),
    {
        proof {
            lemma_byte_len_prefix(self.text(), self.cur_index());
        }
        self.input.len() - self.position
    }

    /// The first special rule, in declaration order, that fires at the
    /// cursor, with its span.
    fn check_special_rules(&self, rem: &str) -> (r: Option<(usize, usize)>)
        requires
            self.wf(),
            rem@ == self.rest(),
        ensures
            r matches Some(m) ==> special_winner(self.config().special_rules@, self.rest(), self.cur_column(), m.0 as int)
                && rule_span(self.config().special_rules@[m.0 as int], self.rest(), self.cur_column()) == Some(m.1 as int)
                && m.1 <= self.rest().len(),
            r is None ==> forall|i: int| 0 <= i < self.config().special_rules@.len() ==> !rule_fires(self.config().special_rules@[i], self.rest(), self.cur_column()),
    {
        let rules = &self.config.special_rules;
        let mut i: usize = 0;
        while i < rules.len()
            invariant
                self.wf(),
                rem@ == self.rest(),
                rules == &self.config.special_rules,
                i <= rules@.len(),
                forall|j: int| 0 <= j < i ==> !rule_fires(rules@[j], self.rest(), self.cur_column()),
            decreases rules@.len() - i,
        {
            match self.rule_span_at(&rules[i], rem) {
                Some(n) => {
                    if n > 0 {
                        return Some((i, n));
                    }
                },
                None => {},
            }
            i = i + 1;
        }
        None
    }
    /// The scanning rank of the category of pattern entry `p`.
    fn category_rank_of(&self, p: usize) -> (r: (u64, usize))
        requires
            p < self.config().patterns@.len(),
        ensures
            (r.0 as int, r.1 as int) == category_rank(self.config(), p as int),
    {
        let (name, _) = self.config.patterns.entry(p);
        proof {
            lemma_key_index_bounds(self.config.token_categories@, name@);
        }
        match self.config.token_categories.position(name.as_str()) {
            Some(k) => {
                let (_, def) = self.config.token_categories.entry(k);
                (def.priority as u64, k)
            },
            None => (0x1_0000_0000u64, p),
        }
    }

    /// The pattern that decides the token at the cursor: the first hit of the
    /// first category, in scanning order, that has one, with the text it
    /// matches.
    fn find_next_token(&self, rem: &str) -> (r: Option<(usize, usize, String)>)
        requires
            self.wf(),
            rem@ == self.rest(),
        ensures
            r matches Some(m) ==> pattern_winner(self.config(), self.rest(), m.0 as int, m.1 as int)
                && anchored_match(self.config().patterns@[m.0 as int].1@[m.1 as int].regex@, self.rest()) == Some(m.2@)
                && m.2@.is_prefix_of(self.rest()),
            r is None ==> forall|q: int| 0 <= q < self.config().patterns@.len() ==> !has_hit(self.config().patterns@[q].1@, self.rest()),
    {
        let ghost cfg = self.config();
        let ghost rest = self.rest();
        let mut best: Option<(usize, usize, String, u64, usize)> = None;
        let mut p: usize = 0;
        while p < self.config.patterns.len()
            invariant
                self.wf(),
                cfg == self.config(),
                rest == self.rest(),
                rem@ == rest,
                p <= cfg.patterns@.len(),
                best matches Some(b) ==> {
                    &&& b.0 < p
                    &&& first_hit(cfg.patterns@[b.0 as int].1@, rest, b.1 as int)
                    &&& anchored_match(cfg.patterns@[b.0 as int].1@[b.1 as int].regex@, rest) == Some(b.2@)
                    &&& b.2@.is_prefix_of(rest)
                    &&& (b.3 as int, b.4 as int) == category_rank(cfg, b.0 as int)
                    &&& forall|q: int|
                        0 <= q < p && q != b.0 && has_hit(cfg.patterns@[q].1@, rest) ==> tried_before(cfg, b.0 as int, q)
                },
                best is None ==> forall|q: int| 0 <= q < p ==> !has_hit(cfg.patterns@[q].1@, rest),
            decreases cfg.patterns@.len() - p,
        {
            let rank = self.category_rank_of(p);
            let better = match &best {
                None => true,
                Some(b) => rank.0 < b.3 || (rank.0 == b.3 && rank.1 < b.4),
            };
            if better {
                let (_, list) = self.config.patterns.entry(p);
                match first_hit_in(list, rem) {
                    Some((j, t)) => {
                        proof {
                            assert forall|q: int|
                                0 <= q < p + 1 && q != p && has_hit(cfg.patterns@[q].1@, rest) implies tried_before(cfg, p as int, q) by {
                                if let Some(b) = best {
                                    if q != b.0 {
                                        assert(tried_before(cfg, b.0 as int, q));
                                    }
                                }
                            }
                        }
                        best = Some((p, j, t, rank.0, rank.1));
                    },
                    None => {},
                }
            }
            p = p + 1;
        }
        match best {
            Some(b) => Some((b.0, b.1, b.2)),
            None => None,
        }
    }

    /// Produces the next token, or `None` once only whitespace remains.
    ///
    /// Whitespace is skipped first. Then the first special rule, in
    /// declaration order, whose present constraints all hold and whose span is
    /// not empty decides the token; failing that, the first pattern, by
    /// category rank and then declaration order, that matches a non-empty text
    /// at the cursor; failing that, one character becomes an `Unknown` token.
    /// The cursor moves past the token, so every token consumes at least one
    /// character. The line and column of a token are those of its first
    /// character. Scanning never fails.
    pub fn next_token(&mut self) -> (r: Result<Option<Token>, TokenizerError>)
        requires
            old(self).wf(),
        ensures
            final(self).wf(),
            old(self).cursor_ok(),
            final(self).cursor_ok(),
            final(self).text() == old(self).text(),
            final(self).config() == old(self).config(),
            r is Ok,
            final(self).cur_index() >= old(self).cur_index(),
            final(self).cur_position() >= old(self).cur_position(),
            ({
                let text = old(self).text();
                let s = skip_white(text, old(self).cur_index());
                let lc = walk(text.subrange(0, s));
                let e = expected_token(old(self).config(), text.subrange(s, text.len() as int), lc.1);
                &&& s == text.len() ==> r == Ok::<Option<Token>, TokenizerError>(None) && final(self).cur_index() == s
                    && final(self).cur_position() == byte_len(text)
                &&& s < text.len() ==> (r matches Ok(Some(tok)) && {
                    &&& !white_space(text[s])
                    &&& s + e.1 <= text.len()
                    &&& final(self).cur_position() == byte_len(text.subrange(0, s)) + byte_len(tok.value@)
                    &&& tok.token_type@ == e.0
                    &&& tok.value@ == text.subrange(s, s + e.1)
                    &&& tok.line == lc.0
                    &&& tok.column == lc.1
                    &&& 0 < e.1
                    &&& final(self).cur_index() == s + e.1
                })
            }),
            old(self).cur_index() == old(self).text().len() ==> {
                &&& r == Ok::<Option<Token>, TokenizerError>(None)
                &&& final(self).cur_index() == old(self).cur_index()
                &&& final(self).cur_position() == old(self).cur_position()
                &&& final(self).cur_line() == old(self).cur_line()
                &&& final(self).cur_column() == old(self).cur_column()
            },
            r matches Ok(None) ==> final(self).cur_index() == final(self).text().len(),
            r matches Ok(Some(_)) ==> final(self).cur_index() > old(self).cur_index(),
    {
        proof {
            lemma_skip_white_bounds(self.text(), self.cur_index());
        }
        let ghost start = self.cur_index();
        self.skip_whitespace();
        if self.index >= self.chars.len() {
            proof {
                assert(self.text().subrange(0, self.text().len() as int) =~= self.text());
                lemma_byte_len_prefix(self.text(), start);
                lemma_byte_len_prefix(self.text(), self.cur_index());
            }
            return Ok(None);
        }
        let ghost text = self.text();
        let ghost s = self.cur_index();
        let ghost rest = self.rest();
        let ghost cfg = self.config();
        let line = self.line;
        let column = self.column;
        let rem = suffix_from(self.input, self.index, self.position);
        let (token_type, value, length) = match self.check_special_rules(rem) {
            Some((i, n)) => {
                proof {
                    lemma_special_choice(cfg.special_rules@, rest, column as int, i as int);
                }
                let rule = &self.config.special_rules[i];
                let value = rem.substring_char(0, n).to_owned();
                (TokenType::new(rule.token_type.clone(), None), value, n)
            },
            None => {
                proof {
                    if special_choice(cfg.special_rules@, rest, column as int) is Some {
                        let i = choose|i: int| special_winner(cfg.special_rules@, rest, column as int, i);
                        assert(rule_fires(cfg.special_rules@[i], rest, column as int));
                    }
                }
                match self.find_next_token(rem) {
                    Some((p, j, t)) => {
                        proof {
                            lemma_pattern_choice(cfg, rest, p as int, j as int);
                        }
                        let (name, list) = self.config.patterns.entry(p);
                        let token_type = TokenType::new(name.clone(), clone_opt(&list[j].subcategory));
                        let n = t.as_str().unicode_len();
                        (token_type, t, n)
                    },
                    None => {
                        proof {
                            lemma_pattern_none(cfg, rest);
                        }
                        let value = rem.substring_char(0, 1).to_owned();
                        (TokenType::new(String::from_str("Unknown"), None), value, 1)
                    },
                }
            },
        };
        assert(value@ =~= text.subrange(s, s + length));
        let mut k: usize = 0;
        while k < length
            invariant
                self.wf(),
                self.text() == text,
                self.config() == cfg,
                self.cur_index() == s + k,
                k <= length,
                s + length <= text.len(),
            decreases length - k,
        {
            self.advance();
            k = k + 1;
        }
        proof {
            lemma_byte_len_split(text, start, s);
            lemma_byte_len_split(text, s, s + length);
        }
        Ok(Some(Token::new(token_type, value, line, column)))
    }
}

} // verus!
