//! Character-level facts about text: UTF-8 widths, whitespace, and searching
//! for one character sequence inside another.
use vstd::prelude::*;
use vstd::string::*;
use vstd::utf8::*;

verus! {

/// Number of bytes in the UTF-8 encoding of `s`.
pub open spec fn byte_len(s: Seq<char>) -> nat {
    encode_utf8(s).len()
}

/// Number of bytes in the UTF-8 encoding of the single character `c`.
pub open spec fn char_width(c: char) -> nat {
    encode_scalar(c as u32).len()
}

/// `needle` occurs in `hay` starting at index `i`.
pub open spec fn occurs_at(hay: Seq<char>, needle: Seq<char>, i: int) -> bool {
    &&& 0 <= i
    &&& i + needle.len() <= hay.len()
    &&& hay.subrange(i, i + needle.len()) == needle
}

/// The index of the first occurrence of `needle` in `hay` at or after `from`.
#[verifier::opaque]
pub open spec fn first_occurrence(hay: Seq<char>, needle: Seq<char>, from: int) -> Option<int> {
    if exists|i: int| from <= i && occurs_at(hay, needle, i) {
        Some(
            choose|i: int|
                from <= i && occurs_at(hay, needle, i) && forall|j: int|
                    from <= j < i ==> !occurs_at(hay, needle, j),
        )
    } else {
        None
    }
}

/// The characters with the Unicode White_Space property: tab, line feed,
/// vertical tab, form feed, carriage return, space, next line, no-break
/// space, ogham space mark, the spaces U+2000 to U+200A, line separator,
/// paragraph separator, narrow no-break space, medium mathematical space and
/// ideographic space.
pub open spec fn white_space(c: char) -> bool {
    let v = c as u32;
    ||| 0x09 <= v <= 0x0D
    ||| v == 0x20
    ||| v == 0x85
    ||| v == 0xA0
    ||| v == 0x1680
    ||| 0x2000 <= v <= 0x200A
    ||| v == 0x2028
    ||| v == 0x2029
    ||| v == 0x202F
    ||| v == 0x205F
    ||| v == 0x3000
}

/// Whether `c` is whitespace, as `char::is_whitespace` classifies it.
pub fn is_white(c: char) -> (r: bool)
    ensures
        r == white_space(c),
{
    let v = c as u32;
    (0x09 <= v && v <= 0x0D) || v == 0x20 || v == 0x85 || v == 0xA0 || v == 0x1680 || (0x2000 <= v
        && v <= 0x200A) || v == 0x2028 || v == 0x2029 || v == 0x202F || v == 0x205F || v == 0x3000
}

/// Encoding a concatenation is concatenating the encodings.
pub proof fn lemma_encode_concat(a: Seq<char>, b: Seq<char>)
    ensures
        encode_utf8(a + b) == encode_utf8(a) + encode_utf8(b),
    decreases a.len(),
{
    if a.len() == 0 {
        assert(a + b =~= b);
        assert(encode_utf8(a) + encode_utf8(b) =~= encode_utf8(b));
    } else {
        assert((a + b).drop_first() =~= a.drop_first() + b);
        lemma_encode_concat(a.drop_first(), b);
        assert(encode_utf8(a + b) =~= encode_scalar(a[0] as u32) + encode_utf8(a.drop_first() + b));
        assert(encode_utf8(a) + encode_utf8(b) =~= encode_scalar(a[0] as u32) + (encode_utf8(
            a.drop_first(),
        ) + encode_utf8(b)));
    }
}

/// The byte length of a prefix extended by one character grows by that
/// character's width.
pub proof fn lemma_byte_len_push(s: Seq<char>, i: int)
    requires
        0 <= i < s.len(),
    ensures
        byte_len(s.subrange(0, i + 1)) == byte_len(s.subrange(0, i)) + char_width(s[i]),
{
    let p = s.subrange(0, i);
    assert(s.subrange(0, i + 1) =~= p + seq![s[i]]);
    lemma_encode_concat(p, seq![s[i]]);
    assert(seq![s[i]].drop_first() =~= Seq::<char>::empty());
    assert(encode_utf8(seq![s[i]]) =~= encode_scalar(s[i] as u32) + encode_utf8(
        Seq::<char>::empty(),
    ));
}

/// A prefix never encodes to more bytes than the whole sequence.
pub proof fn lemma_byte_len_prefix(s: Seq<char>, i: int)
    requires
        0 <= i <= s.len(),
    ensures
        byte_len(s.subrange(0, i)) + byte_len(s.subrange(i, s.len() as int)) == byte_len(s),
{
    assert(s =~= s.subrange(0, i) + s.subrange(i, s.len() as int));
    lemma_encode_concat(s.subrange(0, i), s.subrange(i, s.len() as int));
}

/// The bytes up to character `b` are those up to character `a` followed by
/// those of the characters between them.
pub proof fn lemma_byte_len_split(t: Seq<char>, a: int, b: int)
    requires
        0 <= a <= b <= t.len(),
    ensures
        byte_len(t.subrange(0, b)) == byte_len(t.subrange(0, a)) + byte_len(t.subrange(a, b)),
{
    assert(t.subrange(0, b) =~= t.subrange(0, a) + t.subrange(a, b));
    lemma_encode_concat(t.subrange(0, a), t.subrange(a, b));
}

/// The end of an encoded prefix is a character boundary of the whole encoding.
pub proof fn lemma_prefix_boundary(a: Seq<char>, b: Seq<char>)
    ensures
        is_char_boundary(encode_utf8(a + b), byte_len(a) as int),
    decreases a.len(),
{
    let bytes = encode_utf8(a + b);
    encode_utf8_valid_utf8(a + b);
    if a.len() == 0 {
    } else {
        let ab = a + b;
        encode_utf8_first_scalar(ab);
        assert(ab.drop_first() =~= a.drop_first() + b);
        lemma_prefix_boundary(a.drop_first(), b);
        let w = encode_scalar(ab[0] as u32).len();
        assert(bytes =~= encode_scalar(ab[0] as u32) + encode_utf8(ab.drop_first()));
        assert(pop_first_scalar(bytes) =~= encode_utf8(a.drop_first() + b));
        assert(encode_utf8(a) =~= encode_scalar(a[0] as u32) + encode_utf8(a.drop_first()));
        encode_utf8_valid_utf8(a.drop_first() + b);
    }
}

/// The bytes of a suffix decode back to that suffix.
pub proof fn lemma_suffix_bytes(s: Seq<char>, i: int, t: Seq<char>)
    requires
        0 <= i <= s.len(),
        encode_utf8(t) == encode_utf8(s).subrange(byte_len(s.subrange(0, i)) as int, byte_len(s) as int),
    ensures
        t == s.subrange(i, s.len() as int),
{
    let p = s.subrange(0, i);
    let q = s.subrange(i, s.len() as int);
    assert(s =~= p + q);
    lemma_encode_concat(p, q);
    assert(encode_utf8(s).subrange(byte_len(p) as int, byte_len(s) as int) =~= encode_utf8(q));
    encode_utf8_decode_utf8(t);
    encode_utf8_decode_utf8(q);
}

/// The width in bytes of the UTF-8 encoding of `c`.
pub fn utf8_width(c: char) -> (w: usize)
    ensures
        w == char_width(c),
        1 <= w <= 4,
{
    let v = c as u32;
    proof {
        char_is_scalar(c);
    }
    if v <= 0x7F {
        1
    } else if v <= 0x7FF {
        2
    } else if v <= 0xFFFF {
        3
    } else {
        4
    }
}

/// The part of `s` from character `i` on, given that `pos` is the byte
/// length of the characters before it.
pub fn suffix_from<'a>(s: &'a str, i: usize, pos: usize) -> (r: &'a str)
    requires
        i <= s@.len(),
        pos == byte_len(s@.subrange(0, i as int)),
    ensures
        r@ == s@.subrange(i as int, s@.len() as int),
{
    proof {
        let p = s@.subrange(0, i as int);
        let q = s@.subrange(i as int, s@.len() as int);
        assert(s@ =~= p + q);
        lemma_prefix_boundary(p, q);
    }
    let (_, rest) = s.split_at(pos);
    proof {
        lemma_byte_len_prefix(s@, i as int);
        lemma_suffix_bytes(s@, i as int, rest@);
    }
    rest
}

/// The characters of `s`, in order.
pub fn chars_of(s: &str) -> (v: Vec<char>)
    ensures
        v@ == s@,
{
    let mut v: Vec<char> = Vec::new();
    for c in it: s.chars()
        invariant
            v@ == it.seq().subrange(0, it.index() as int),
    {
        v.push(c);
    }
    v
}

/// Whether `needle` occurs in `hay` at index `at`.
pub fn occurs_at_exec(hay: &Vec<char>, needle: &Vec<char>, at: usize) -> (r: bool)
    ensures
        r == occurs_at(hay@, needle@, at as int),
{
    if at > hay.len() || needle.len() > hay.len() - at {
        return false;
    }
    let mut k: usize = 0;
    while k < needle.len()
        invariant
            at + needle.len() <= hay.len(),
            k <= needle.len(),
            forall|j: int| 0 <= j < k ==> hay@[at + j] == needle@[j],
        decreases needle.len() - k,
    {
        if hay[at + k] != needle[k] {
            assert(hay@.subrange(at as int, at + needle.len())[k as int] != needle@[k as int]);
            return false;
        }
        k = k + 1;
    }
    assert(hay@.subrange(at as int, at + needle.len()) =~= needle@);
    true
}

/// The index of the first occurrence of `needle` in `hay` at or after `from`.
pub fn find_from(hay: &Vec<char>, needle: &Vec<char>, from: usize) -> (r: Option<usize>)
    ensures
        r matches Some(i) ==> first_occurrence(hay@, needle@, from as int) == Some(i as int),
        r matches Some(i) ==> from <= i && occurs_at(hay@, needle@, i as int),
        r is None ==> first_occurrence(hay@, needle@, from as int) is None,
{
    let mut i: usize = from;
    while i <= hay.len()
        invariant
            from <= i,
            forall|j: int| from <= j < i ==> !occurs_at(hay@, needle@, j),
        decreases hay.len() + 1 - i,
    {
        if occurs_at_exec(hay, needle, i) {
            let ghost w = i as int;
            assert(from <= w && occurs_at(hay@, needle@, w));
            let ghost c = choose|c: int|
                from <= c && occurs_at(hay@, needle@, c) && forall|j: int|
                    from <= j < c ==> !occurs_at(hay@, needle@, j);
            assert(c == w) by {
                if c < w {
                } else if c > w {
                    assert(!occurs_at(hay@, needle@, w));
                }
            }
            reveal(first_occurrence);
            return Some(i);
        }
        if i == hay.len() {
            assert forall|j: int| from <= j implies !occurs_at(hay@, needle@, j) by {
                if j > hay.len() {
                }
            }
            reveal(first_occurrence);
            return None;
        }
        i = i + 1;
    }
    assert forall|j: int| from <= j implies !occurs_at(hay@, needle@, j) by {
    }
    reveal(first_occurrence);
    None
}

} // verus!
