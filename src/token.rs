//! Token classifications and token instances.
use vstd::prelude::*;
use vstd::string::*;

use crate::text::chars_of;

verus! {

/// `s` holds no colon.
pub open spec fn colon_free(s: Seq<char>) -> bool {
    !s.contains(':')
}

/// `s` holds at most one colon.
pub open spec fn at_most_one_colon(s: Seq<char>) -> bool {
    forall|i: int, j: int| 0 <= i < j < s.len() && s[i] == ':' ==> s[j] != ':'
}

/// The textual form of a classification: `category` or `category:subcategory`.
pub open spec fn render_type(t: (Seq<char>, Option<Seq<char>>)) -> Seq<char> {
    match t.1 {
        None => t.0,
        Some(sub) => t.0 + seq![':'] + sub,
    }
}

/// The classification that a textual form names: split at its colon, if any.
pub open spec fn parse_type(s: Seq<char>) -> (Seq<char>, Option<Seq<char>>) {
    if s.contains(':') {
        let i = s.index_of(':');
        (s.subrange(0, i), Some(s.subrange(i + 1, s.len() as int)))
    } else {
        (s, None)
    }
}

/// The classification of a token: a category and an optional subcategory.
#[derive(Debug, Clone, PartialEq, Eq, Hash)]
pub struct TokenType {
    /// The main category (e.g. "Keyword", "Identifier").
    pub category: String,
    /// An optional finer classification within the category.
    pub subcategory: Option<String>,
}

impl View for TokenType {
    type V = (Seq<char>, Option<Seq<char>>);

    open spec fn view(&self) -> (Seq<char>, Option<Seq<char>>) {
        (self.category@, self.subcategory.deep_view())
    }
}

impl TokenType {
    /// Builds a classification from its parts.
    pub fn new(category: String, subcategory: Option<String>) -> (r: Self)
        ensures
            r.category == category,
            r.subcategory == subcategory,
    {
        TokenType { category, subcategory }
    }

    /// Parses `category` or `category:subcategory`; a text with two or more
    /// colons names no classification and is not accepted.
    pub fn from_str(s: &str) -> (r: Self)
        requires
            at_most_one_colon(s@),
        ensures
            r@ == parse_type(s@),
    {
        let chars = chars_of(s);
        let mut i: usize = 0;
        while i < chars.len()
            invariant
                chars@ == s@,
                at_most_one_colon(s@),
                i <= chars.len(),
                forall|j: int| 0 <= j < i ==> chars@[j] != ':',
            decreases chars.len() - i,
        {
            if chars[i] == ':' {
                let cat = s.substring_char(0, i).to_owned();
                let sub = s.substring_char(i + 1, chars.len()).to_owned();
                proof {
                    assert(s@[i as int] == ':');
                    assert(s@.contains(':'));
                    let k = s@.index_of(':');
                    assert(0 <= k < s@.len() && s@[k] == ':');
                    assert(k == i as int) by {
                        if k < i {
                            assert(chars@[k] != ':');
                        } else if k > i {
                            assert(s@[k] != ':');
                        }
                    }
                }
                return TokenType::new(cat, Some(sub));
            }
            i = i + 1;
        }
        assert(!s@.contains(':'));
        TokenType::new(s.to_owned(), None)
    }

    /// The textual form: `category`, or `category:subcategory` when a
    /// subcategory is present.
    pub fn to_string(&self) -> (r: String)
        ensures
            r@ == render_type(self@),
    {
        proof {
            reveal_strlit(":");
        }
        match &self.subcategory {
            Some(sub) => self.category.clone().concat(":").concat(sub.as_str()),
            None => self.category.clone(),
        }
    }
}

/// Rendering a classification whose parts hold no colon and parsing the text
/// back gives the same classification; the text itself is accepted by the
/// parser, since it holds at most one colon.
pub proof fn lemma_parse_render(t: (Seq<char>, Option<Seq<char>>))
    requires
        colon_free(t.0),
        t.1 matches Some(sub) ==> colon_free(sub),
    ensures
        at_most_one_colon(render_type(t)),
        parse_type(render_type(t)) == t,
{
    let s = render_type(t);
    match t.1 {
        None => {},
        Some(sub) => {
            let n = t.0.len();
            assert(s[n as int] == ':');
            assert forall|i: int| 0 <= i < s.len() && s[i] == ':' implies i == n by {
                if i < n {
                    assert(s[i] == t.0[i]);
                    assert(t.0.contains(':'));
                } else if i > n {
                    assert(s[i] == sub[i - n - 1]);
                    assert(sub.contains(':'));
                }
            }
            assert(s.contains(':'));
            let k = s.index_of(':');
            assert(k == n);
            assert(s.subrange(0, k) =~= t.0);
            assert(s.subrange(k + 1, s.len() as int) =~= sub);
        },
    }
}

/// A classified, positioned slice of the input text.
#[derive(Debug, Clone)]
pub struct Token {
    /// The classification of the token.
    pub token_type: TokenType,
    /// The exact text of the token as it appears in the input.
    pub value: String,
    /// The 1-based line of the token's first character.
    pub line: usize,
    /// The 1-based column of the token's first character.
    pub column: usize,
}

impl Token {
    /// Builds a token from its parts.
    pub fn new(token_type: TokenType, value: String, line: usize, column: usize) -> (r: Self)
        ensures
            r.token_type == token_type,
            r.value == value,
            r.line == line,
            r.column == column,
    {
        Token { token_type, value, line, column }
    }
}

} // verus!
