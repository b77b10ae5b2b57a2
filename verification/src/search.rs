//! Offline dictionary search.
//!
//! Query routing:
//! - contains CJK        -> hanzi search: exact, then prefix, then substring
//! - otherwise           -> latin search: pinyin exact, pinyin prefix, then
//!                          English full-text (FTS5, prefix tokens)
//!
//! The dictionary lives in SQLite; this module decides which lookups run,
//! in which order and with which parameters ([`SearchRun`]), merges the rows
//! that come back, and segments pasted text ([`Segmentation`]).

use vstd::prelude::*;

use crate::error::AppError;
use crate::text::{
    chars_of, concat, decimal, is_whitespace, push_char, push_decimal_i64, spec_is_whitespace,
    spec_trim, string_of, to_string, trim, trim_bounds,
};

verus! {

broadcast use vstd::seq_lib::group_seq_properties;

/// Whether `c` lies in one of the CJK ideograph blocks (Extension A, the
/// unified ideographs, and the compatibility ideographs).
pub open spec fn spec_is_cjk(c: char) -> bool {
    ||| '\u{3400}' <= c <= '\u{4DBF}'
    ||| '\u{4E00}' <= c <= '\u{9FFF}'
    ||| '\u{F900}' <= c <= '\u{FAFF}'
}

/// Whether `c` is a CJK ideograph.
pub fn is_cjk(c: char) -> (r: bool)
    ensures
        r == spec_is_cjk(c),
{
    ('\u{3400}' <= c && c <= '\u{4DBF}') || ('\u{4E00}' <= c && c <= '\u{9FFF}') || ('\u{F900}'
        <= c && c <= '\u{FAFF}')
}

/// Whether some character of `s` is a CJK ideograph.
pub open spec fn spec_contains_cjk(s: Seq<char>) -> bool {
    exists|i: int| 0 <= i < s.len() && spec_is_cjk(#[trigger] s[i])
}

/// Whether `s` contains a CJK ideograph.
pub fn contains_cjk(s: &str) -> (r: bool)
    ensures
        r == spec_contains_cjk(s@),
{
    let chars = chars_of(s);
    let mut i: usize = 0;
    while i < chars.len()
        invariant
            i <= chars@.len(),
            chars@ == s@,
            forall|j: int| 0 <= j < i ==> !spec_is_cjk(#[trigger] chars@[j]),
        decreases chars@.len() - i,
    {
        if is_cjk(chars[i]) {
            return true;
        }
        i += 1;
    }
    false
}

/// std's `char::to_ascii_lowercase`.
pub open spec fn ascii_lowercase(c: char) -> char {
    if 'A' <= c <= 'Z' {
        ((c as u32) + 32) as char
    } else {
        c
    }
}

/// What one typed character contributes to the flat pinyin form: tone-marked
/// vowels, capital or not, lose their marks and become lowercase, `ü` and
/// `Ü` (with or without a tone mark) become `v`, tone digits `1`-`5` vanish,
/// ASCII letters are lowercased, and anything that is then not a lowercase
/// ASCII letter is dropped.
pub open spec fn flat_char(c: char) -> Option<char> {
    let mapped = if c == 'ā' || c == 'á' || c == 'ǎ' || c == 'à' || c == 'Ā' || c == 'Á' || c == 'Ǎ' || c == 'À' {
        Some('a')
    } else if c == 'ē' || c == 'é' || c == 'ě' || c == 'è' || c == 'Ē' || c == 'É' || c == 'Ě' || c == 'È' {
        Some('e')
    } else if c == 'ī' || c == 'í' || c == 'ǐ' || c == 'ì' || c == 'Ī' || c == 'Í' || c == 'Ǐ' || c == 'Ì' {
        Some('i')
    } else if c == 'ō' || c == 'ó' || c == 'ǒ' || c == 'ò' || c == 'Ō' || c == 'Ó' || c == 'Ǒ' || c == 'Ò' {
        Some('o')
    } else if c == 'ū' || c == 'ú' || c == 'ǔ' || c == 'ù' || c == 'Ū' || c == 'Ú' || c == 'Ǔ' || c == 'Ù' {
        Some('u')
    } else if c == 'ǖ' || c == 'ǘ' || c == 'ǚ' || c == 'ǜ' || c == 'ü' || c == 'Ǖ' || c == 'Ǘ' || c == 'Ǚ' || c == 'Ǜ' || c == 'Ü' {
        Some('v')
    } else if '1' <= c <= '5' {
        None
    } else {
        Some(ascii_lowercase(c))
    };
    match mapped {
        Some(m) => if 'a' <= m <= 'z' {
            Some(m)
        } else {
            None
        },
        None => None,
    }
}

/// The toneless, letters-only form of typed latin input, as stored in the
/// dictionary's `pinyin_flat` column.
pub open spec fn spec_flat_pinyin(s: Seq<char>) -> Seq<char> {
    s.filter_map(|c: char| flat_char(c))
}

fn flat_char_exec(c: char) -> (r: Option<char>)
    ensures
        r == flat_char(c),
{
    let mapped = if c == 'ā' || c == 'á' || c == 'ǎ' || c == 'à' || c == 'Ā' || c == 'Á' || c == 'Ǎ' || c == 'À' {
        'a'
    } else if c == 'ē' || c == 'é' || c == 'ě' || c == 'è' || c == 'Ē' || c == 'É' || c == 'Ě' || c == 'È' {
        'e'
    } else if c == 'ī' || c == 'í' || c == 'ǐ' || c == 'ì' || c == 'Ī' || c == 'Í' || c == 'Ǐ' || c == 'Ì' {
        'i'
    } else if c == 'ō' || c == 'ó' || c == 'ǒ' || c == 'ò' || c == 'Ō' || c == 'Ó' || c == 'Ǒ' || c == 'Ò' {
        'o'
    } else if c == 'ū' || c == 'ú' || c == 'ǔ' || c == 'ù' || c == 'Ū' || c == 'Ú' || c == 'Ǔ' || c == 'Ù' {
        'u'
    } else if c == 'ǖ' || c == 'ǘ' || c == 'ǚ' || c == 'ǜ' || c == 'ü' || c == 'Ǖ' || c == 'Ǘ' || c == 'Ǚ' || c == 'Ǜ' || c == 'Ü' {
        'v'
    } else if '1' <= c && c <= '5' {
        return None;
    } else if 'A' <= c && c <= 'Z' {
        ((c as u8) + 32) as char
    } else {
        c
    };
    if 'a' <= mapped && mapped <= 'z' {
        Some(mapped)
    } else {
        None
    }
}

/// Normalize typed latin input to the toneless letters-only form stored in
/// `entries.pinyin_flat`: strips tone marks (from capitals too, which are
/// lowercased), tone digits, spaces and apostrophes; 'ü' becomes 'v'.
pub fn flat_pinyin(input: &str) -> (r: String)
    ensures
        r@ == spec_flat_pinyin(input@),
{
    let chars = chars_of(input);
    let mut out = String::new();
    let mut i: usize = 0;
    while i < chars.len()
        invariant
            i <= chars@.len(),
            out@ == chars@.take(i as int).filter_map(|c: char| flat_char(c)),
        decreases chars@.len() - i,
    {
        proof {
            chars@.lemma_filter_map_take_succ(|c: char| flat_char(c), i as int);
        }
        match flat_char_exec(chars[i]) {
            Some(m) => push_char(&mut out, m),
            None => {},
        }
        i += 1;
    }
    assert(chars@.take(chars@.len() as int) == chars@);
    out
}

/// The flat pinyin form holds lowercase ASCII letters only.
pub proof fn lemma_flat_pinyin_letters(s: Seq<char>)
    ensures
        forall|i: int|
            0 <= i < spec_flat_pinyin(s).len() ==> 'a' <= #[trigger] spec_flat_pinyin(s)[i] <= 'z',
    decreases s.len(),
{
    if s.len() > 0 {
        let rest = s.drop_last();
        lemma_flat_pinyin_letters(rest);
        let fr = spec_flat_pinyin(rest);
        match flat_char(s.last()) {
            Some(m) => {
                assert(spec_flat_pinyin(s) == fr + seq![m]);
            },
            None => {
                assert(spec_flat_pinyin(s) == fr);
            },
        }
    }
}

/// Flattening is idempotent: flat pinyin typed again yields itself.
pub proof fn lemma_flat_pinyin_idempotent(s: Seq<char>)
    ensures
        spec_flat_pinyin(spec_flat_pinyin(s)) == spec_flat_pinyin(s),
    decreases s.len(),
{
    if s.len() > 0 {
        let rest = s.drop_last();
        lemma_flat_pinyin_idempotent(rest);
        let fr = spec_flat_pinyin(rest);
        match flat_char(s.last()) {
            Some(m) => {
                let t = fr + seq![m];
                assert(t.drop_last() == fr);
                assert(t.last() == m);
                assert(flat_char(m) == Some(m));
            },
            None => {},
        }
    }
}

/// Unicode's precomposed pinyin vowels, by code point: vowel `v` (0 to 5:
/// a, e, i, o, u, ü) with tone `t` (1 to 4: macron, acute, caron, grave).
pub open spec fn toned_vowel(v: int, t: int) -> char {
    let cp: u32 = if v == 0 {
        if t == 1 { 0x101 } else if t == 2 { 0xE1 } else if t == 3 { 0x1CE } else { 0xE0 }
    } else if v == 1 {
        if t == 1 { 0x113 } else if t == 2 { 0xE9 } else if t == 3 { 0x11B } else { 0xE8 }
    } else if v == 2 {
        if t == 1 { 0x12B } else if t == 2 { 0xED } else if t == 3 { 0x1D0 } else { 0xEC }
    } else if v == 3 {
        if t == 1 { 0x14D } else if t == 2 { 0xF3 } else if t == 3 { 0x1D2 } else { 0xF2 }
    } else if v == 4 {
        if t == 1 { 0x16B } else if t == 2 { 0xFA } else if t == 3 { 0x1D4 } else { 0xF9 }
    } else {
        if t == 1 { 0x1D6 } else if t == 2 { 0x1D8 } else if t == 3 { 0x1DA } else { 0x1DC }
    };
    cp as char
}

/// The capital of [`toned_vowel`]`(v, t)`, by code point.
pub open spec fn toned_capital(v: int, t: int) -> char {
    let cp: u32 = if v == 0 {
        if t == 1 { 0x100 } else if t == 2 { 0xC1 } else if t == 3 { 0x1CD } else { 0xC0 }
    } else if v == 1 {
        if t == 1 { 0x112 } else if t == 2 { 0xC9 } else if t == 3 { 0x11A } else { 0xC8 }
    } else if v == 2 {
        if t == 1 { 0x12A } else if t == 2 { 0xCD } else if t == 3 { 0x1CF } else { 0xCC }
    } else if v == 3 {
        if t == 1 { 0x14C } else if t == 2 { 0xD3 } else if t == 3 { 0x1D1 } else { 0xD2 }
    } else if v == 4 {
        if t == 1 { 0x16A } else if t == 2 { 0xDA } else if t == 3 { 0x1D3 } else { 0xD9 }
    } else {
        if t == 1 { 0x1D5 } else if t == 2 { 0x1D7 } else if t == 3 { 0x1D9 } else { 0x1DB }
    };
    cp as char
}

/// Vowel `v` without a tone mark: a, e, i, o, u, ü (U+00FC).
pub open spec fn plain_vowel(v: int) -> char {
    let cp: u32 = if v == 0 {
        97
    } else if v == 1 {
        101
    } else if v == 2 {
        105
    } else if v == 3 {
        111
    } else if v == 4 {
        117
    } else {
        0xFC
    };
    cp as char
}

/// Flattening works character by character: the flat form of text typed
/// in two parts is the flat form of the first part followed by that of
/// the second.
pub proof fn lemma_flat_pinyin_concat(a: Seq<char>, b: Seq<char>)
    ensures
        spec_flat_pinyin(a + b) == spec_flat_pinyin(a) + spec_flat_pinyin(b),
    decreases b.len(),
{
    if b.len() == 0 {
        assert(a + b == a);
    } else {
        lemma_flat_pinyin_concat(a, b.drop_last());
        assert((a + b).drop_last() == a + b.drop_last());
        assert((a + b).last() == b.last());
    }
}

proof fn lemma_flat_pinyin_same_char(a: Seq<char>, b: Seq<char>, x: char, y: char)
    requires
        flat_char(x) == flat_char(y),
    ensures
        spec_flat_pinyin(a + seq![x] + b) == spec_flat_pinyin(a + seq![y] + b),
{
    lemma_flat_pinyin_concat(a + seq![x], b);
    lemma_flat_pinyin_concat(a + seq![y], b);
    lemma_flat_pinyin_concat(a, seq![x]);
    lemma_flat_pinyin_concat(a, seq![y]);
    Seq::lemma_filter_map_singleton(x, |c: char| flat_char(c));
    Seq::lemma_filter_map_singleton(y, |c: char| flat_char(c));
}

/// Tone marks are stripped wherever they stand: replacing a tone-marked
/// vowel, capital or not, by the plain lowercase vowel leaves the flat form
/// of the text unchanged (so `nǐ hǎo` and `Nǐ Hǎo` flatten as `ni hao`).
pub proof fn lemma_flat_pinyin_strips_tone_marks(a: Seq<char>, b: Seq<char>, v: int, t: int)
    requires
        0 <= v < 6,
        1 <= t <= 4,
    ensures
        spec_flat_pinyin(a + seq![toned_vowel(v, t)] + b) == spec_flat_pinyin(
            a + seq![plain_vowel(v)] + b,
        ),
        spec_flat_pinyin(a + seq![toned_capital(v, t)] + b) == spec_flat_pinyin(
            a + seq![plain_vowel(v)] + b,
        ),
{
    lemma_flat_pinyin_same_char(a, b, toned_vowel(v, t), plain_vowel(v));
    lemma_flat_pinyin_same_char(a, b, toned_capital(v, t), plain_vowel(v));
}

/// What single characters flatten to: a lowercase ASCII letter stays, a
/// capital ASCII letter is lowercased, `ü` and `Ü` become `v`, and tone
/// digits 1 to 5, spaces and apostrophes vanish.
pub proof fn lemma_flat_pinyin_letters_and_separators(c: char)
    ensures
        'a' <= c <= 'z' ==> spec_flat_pinyin(seq![c]) == seq![c],
        'A' <= c <= 'Z' ==> spec_flat_pinyin(seq![c]) == seq![((c as u32) + 32) as char],
        (c as u32 == 0xFC || c as u32 == 0xDC) ==> spec_flat_pinyin(seq![c]) == seq!['v'],
        ('1' <= c <= '5' || c == ' ' || c == '\'') ==> spec_flat_pinyin(seq![c]) == Seq::<
            char,
        >::empty(),
{
    Seq::lemma_filter_map_singleton(c, |x: char| flat_char(x));
}

/// How one character is written inside a `LIKE ... ESCAPE '\'` pattern so
/// that it matches itself: the escape character and the two wildcards are
/// preceded by a backslash.
pub open spec fn escape_like_char(c: char) -> Seq<char> {
    if c == '\\' || c == '%' || c == '_' {
        seq!['\\', c]
    } else {
        seq![c]
    }
}

/// `s` escaped for use inside a `LIKE` pattern with `ESCAPE '\'`.
pub open spec fn spec_escape_like(s: Seq<char>) -> Seq<char> {
    s.flat_map(|c: char| escape_like_char(c))
}

/// The literal text that a `LIKE` pattern with `ESCAPE '\'` stands for, when
/// it holds no wildcard: a backslash makes the next character literal.
pub open spec fn unescape_like(p: Seq<char>) -> Seq<char>
    decreases p.len(),
{
    if p.len() == 0 {
        Seq::empty()
    } else if p[0] == '\\' && p.len() >= 2 {
        seq![p[1]] + unescape_like(p.subrange(2, p.len() as int))
    } else {
        seq![p[0]] + unescape_like(p.drop_first())
    }
}

/// Escapes `\`, `%` and `_` so that `s` is matched literally by `LIKE`.
pub fn escape_like(s: &str) -> (r: String)
    ensures
        r@ == spec_escape_like(s@),
{
    let chars = chars_of(s);
    let mut out = String::new();
    let mut i: usize = 0;
    while i < chars.len()
        invariant
            i <= chars@.len(),
            out@ == chars@.take(i as int).flat_map(|c: char| escape_like_char(c)),
        decreases chars@.len() - i,
    {
        proof {
            chars@.lemma_flat_map_take_append(|c: char| escape_like_char(c), i as int);
        }
        let c = chars[i];
        if c == '\\' || c == '%' || c == '_' {
            push_char(&mut out, '\\');
        }
        push_char(&mut out, c);
        i += 1;
    }
    assert(chars@.take(chars@.len() as int) == chars@);
    out
}

/// Escaping is undone by `LIKE`'s escape rule: the escaped pattern stands
/// for exactly the text that was escaped.
pub proof fn lemma_escape_like_roundtrip(s: Seq<char>)
    ensures
        unescape_like(spec_escape_like(s)) == s,
    decreases s.len(),
{
    if s.len() > 0 {
        let f = |c: char| escape_like_char(c);
        let rest = s.drop_first();
        lemma_escape_like_roundtrip(rest);
        assert(s.map_values(f).drop_first() == rest.map_values(f));
        assert(spec_escape_like(s) == escape_like_char(s[0]) + spec_escape_like(rest));
        let p = spec_escape_like(s);
        if s[0] == '\\' || s[0] == '%' || s[0] == '_' {
            assert(p.subrange(2, p.len() as int) == spec_escape_like(rest));
        } else {
            assert(p.drop_first() == spec_escape_like(rest));
        }
        assert(unescape_like(p) == seq![s[0]] + rest);
    }
}

/// Unicode alphanumeric (Alphabetic or Numeric property), as std's
/// `char::is_alphanumeric` decides it.
pub uninterp spec fn char_is_alphanumeric(c: char) -> bool;

/// std's `char::is_alphanumeric`; the contract names its result.
#[verifier::external_body]
fn is_alphanumeric(c: char) -> (r: bool)
    ensures
        r == char_is_alphanumeric(c),
{
    c.is_alphanumeric()
}

/// A query character paired with whether it is alphanumeric.
pub type Marked = (char, bool);

/// The characters of `s`, each paired with whether it is alphanumeric.
pub open spec fn marked(s: Seq<char>) -> Seq<Marked> {
    Seq::new(s.len(), |i: int| (s[i], char_is_alphanumeric(s[i])))
}

/// Whether a marked character is kept in an English search term: it is
/// alphanumeric, `-` or `'`.
pub open spec fn term_char(p: Marked) -> bool {
    p.1 || p.0 == '-' || p.0 == '\''
}

/// Splitting by whitespace, read left to right: the words completed so far
/// and the word being read.
pub open spec fn whitespace_split(s: Seq<Marked>) -> (Seq<Seq<Marked>>, Seq<Marked>)
    decreases s.len(),
{
    if s.len() == 0 {
        (Seq::empty(), Seq::empty())
    } else {
        let (words, cur) = whitespace_split(s.drop_last());
        let c = s.last();
        if spec_is_whitespace(c.0) {
            (if cur.len() > 0 {
                words.push(cur)
            } else {
                words
            }, Seq::empty())
        } else {
            (words, cur.push(c))
        }
    }
}

/// The maximal runs of non-whitespace characters (std's `split_whitespace`).
pub open spec fn split_whitespace(s: Seq<Marked>) -> Seq<Seq<Marked>> {
    let (words, cur) = whitespace_split(s);
    if cur.len() > 0 {
        words.push(cur)
    } else {
        words
    }
}

/// A word reduced to its term characters.
pub open spec fn term_of(w: Seq<Marked>) -> Seq<char> {
    w.filter(|p: Marked| term_char(p)).map_values(|p: Marked| p.0)
}

/// The English search terms of a query: each word reduced to its term
/// characters, words left empty dropped.
pub open spec fn english_terms(s: Seq<Marked>) -> Seq<Seq<char>> {
    split_whitespace(s).map_values(|w: Seq<Marked>| term_of(w)).filter(|t: Seq<char>| t.len() > 0)
}

/// One FTS5 prefix term: the term quoted, then `*`.
pub open spec fn fts_term(t: Seq<char>) -> Seq<char> {
    seq!['"'] + t + seq!['"', '*']
}

/// Terms written one after another, separated by single spaces.
pub open spec fn join_terms(ts: Seq<Seq<char>>) -> Seq<char>
    decreases ts.len(),
{
    if ts.len() == 0 {
        Seq::empty()
    } else if ts.len() == 1 {
        fts_term(ts[0])
    } else {
        join_terms(ts.drop_last()) + seq![' '] + fts_term(ts.last())
    }
}

/// The FTS5 `MATCH` expression for a query whose characters are marked
/// alphanumeric or not, if it has any term.
pub open spec fn spec_english_match_marked(s: Seq<Marked>) -> Option<Seq<char>> {
    let ts = english_terms(s);
    if ts.len() == 0 {
        None
    } else {
        Some(join_terms(ts))
    }
}

/// The FTS5 `MATCH` expression for an English query, if it has any term.
pub open spec fn spec_english_match(s: Seq<char>) -> Option<Seq<char>> {
    spec_english_match_marked(marked(s))
}

/// Appends `t` to `expr` as the next FTS5 prefix term.
fn push_term(expr: &mut String, terms: Ghost<Seq<Seq<char>>>, t: &Vec<char>, count: usize)
    requires
        old(expr)@ == join_terms(terms@),
        count == terms@.len(),
    ensures
        final(expr)@ == join_terms(terms@.push(t@)),
{
    assert(terms@.push(t@).drop_last() =~= terms@);
    if count > 0 {
        push_char(expr, ' ');
    }
    push_char(expr, '"');
    let mut i: usize = 0;
    while i < t.len()
        invariant
            i <= t@.len(),
            expr@ == old(expr)@ + (if terms@.len() > 0 {
                seq![' ']
            } else {
                Seq::empty()
            }) + seq!['"'] + t@.take(i as int),
        decreases t@.len() - i,
    {
        push_char(expr, t[i]);
        i += 1;
        assert(t@.take(i as int) == t@.take(i - 1) + seq![t@[i - 1]]);
    }
    push_char(expr, '"');
    push_char(expr, '*');
    assert(t@.take(t@.len() as int) == t@);
}

/// The FTS5 `MATCH` expression for a query given character by character,
/// each with whether it is alphanumeric: every whitespace-separated word,
/// reduced to alphanumerics, `-` and `'`, becomes a quoted prefix term;
/// `None` when no word keeps a character.
pub fn english_match_marked(q: &Vec<Marked>) -> (r: Option<String>)
    ensures
        r matches Some(m) ==> spec_english_match_marked(q@) == Some(m@),
        r is None ==> spec_english_match_marked(q@) is None,
{
    let mut expr = String::new();
    let mut cur: Vec<char> = Vec::new();
    let ghost mut terms: Seq<Seq<char>> = Seq::empty();
    let mut count: usize = 0;
    let mut i: usize = 0;
    let ghost tc = |p: Marked| term_char(p);
    let ghost fst = |p: Marked| p.0;
    let ghost tw = |w: Seq<Marked>| term_of(w);
    let ghost ne = |t: Seq<char>| t.len() > 0;
    while i < q.len()
        invariant
            i <= q@.len(),
            tc == (|p: Marked| term_char(p)),
            fst == (|p: Marked| p.0),
            tw == (|w: Seq<Marked>| term_of(w)),
            ne == (|t: Seq<char>| t.len() > 0),
            terms == whitespace_split(q@.take(i as int)).0.map_values(tw).filter(ne),
            cur@ == whitespace_split(q@.take(i as int)).1.filter(tc).map_values(fst),
            expr@ == join_terms(terms),
            count == terms.len(),
            count + cur@.len() <= i,
        decreases q@.len() - i,
    {
        let ghost p = q@.take(i as int);
        let ghost (words, word) = whitespace_split(p);
        let (c, alnum) = q[i];
        assert(q@.take(i + 1).drop_last() == p);
        assert(q@.take(i + 1).last() == (c, alnum));
        proof {
            assert(word.filter(tc).map_values(fst).len() == word.filter(tc).len());
            word.filter(tc).lemma_filter_len(tc);
        }
        if is_whitespace(c) {
            proof {
                if word.len() > 0 {
                    words.lemma_push_map_commute(tw, word);
                    words.map_values(tw).lemma_filter_push(term_of(word), ne);
                }
            }
            if cur.len() > 0 {
                push_term(&mut expr, Ghost(terms), &cur, count);
                proof {
                    terms = terms.push(cur@);
                }
                count += 1;
                cur = Vec::new();
            } else {
                cur = Vec::new();
            }
            assert(cur@ == Seq::<Marked>::empty().filter(tc).map_values(fst));
        } else {
            proof {
                word.lemma_filter_push((c, alnum), tc);
                if term_char((c, alnum)) {
                    word.filter(tc).lemma_push_map_commute(fst, (c, alnum));
                }
            }
            if alnum || c == '-' || c == '\'' {
                cur.push(c);
            }
        }
        i += 1;
    }
    assert(q@.take(q@.len() as int) == q@);
    let ghost (words, word) = whitespace_split(q@);
    proof {
        if word.len() > 0 {
            words.lemma_push_map_commute(tw, word);
            words.map_values(tw).lemma_filter_push(term_of(word), ne);
        }
    }
    if cur.len() > 0 {
        push_term(&mut expr, Ghost(terms), &cur, count);
        proof {
            terms = terms.push(cur@);
        }
        count += 1;
    }
    assert(terms == english_terms(q@));
    if count == 0 {
        None
    } else {
        Some(expr)
    }
}

/// The FTS5 `MATCH` expression for the English part of a latin search:
/// every whitespace-separated word, reduced to alphanumerics, `-` and `'`,
/// becomes a quoted prefix term; `None` when no word keeps a character.
pub fn english_match(q: &str) -> (r: Option<String>)
    ensures
        r matches Some(m) ==> spec_english_match(q@) == Some(m@),
        r is None ==> spec_english_match(q@) is None,
{
    let chars = chars_of(q);
    let mut m: Vec<Marked> = Vec::new();
    let mut i: usize = 0;
    while i < chars.len()
        invariant
            i <= chars@.len(),
            chars@ == q@,
            m@ == marked(q@).take(i as int),
        decreases chars@.len() - i,
    {
        let c = chars[i];
        m.push((c, is_alphanumeric(c)));
        i += 1;
        assert(m@ == marked(q@).take(i as int));
    }
    assert(m@ == marked(q@));
    english_match_marked(&m)
}

/// One dictionary entry as shown in search results and word lists.
#[derive(Debug, Clone, PartialEq, Eq)]
pub struct EntrySummary {
    pub id: i64,
    pub traditional: String,
    pub simplified: String,
    pub pinyin_marks: String,
    pub definitions: String,
}

/// A piece of segmented text and, for a dictionary word, its entry.
#[derive(Debug, Clone, PartialEq, Eq)]
pub struct Segment {
    pub surface: String,
    pub entry: Option<EntrySummary>,
}

/// Whether some entry of `out` has the id `id`.
pub open spec fn has_id(out: Seq<EntrySummary>, id: i64) -> bool {
    exists|k: int| 0 <= k < out.len() && (#[trigger] out[k]).id == id
}

/// No two entries of `out` share an id.
pub open spec fn distinct_ids(out: Seq<EntrySummary>) -> bool {
    forall|j: int, k: int| 0 <= j < k < out.len() ==> (#[trigger] out[j]).id != (#[trigger] out[k]).id
}

/// Appending the rows of one lookup to the results: rows are taken in
/// order, rows whose id is already present are skipped, and appending stops
/// once the results reach `limit` entries or a row fails to read. Gives the
/// new results and the read error, if any.
pub open spec fn merge_rows(
    out: Seq<EntrySummary>,
    rows: Seq<Result<EntrySummary, AppError>>,
    limit: int,
) -> (Seq<EntrySummary>, Option<AppError>)
    decreases rows.len(),
{
    if rows.len() == 0 {
        (out, None)
    } else {
        match rows[0] {
            Err(e) => (out, Some(e)),
            Ok(e) => if has_id(out, e.id) {
                merge_rows(out, rows.drop_first(), limit)
            } else if out.len() + 1 >= limit {
                (out.push(e), None)
            } else {
                merge_rows(out.push(e), rows.drop_first(), limit)
            },
        }
    }
}

/// Merging keeps ids distinct, only appends, and stays within `limit`
/// entries, or one more than it started with.
pub proof fn lemma_merge_rows(
    out: Seq<EntrySummary>,
    rows: Seq<Result<EntrySummary, AppError>>,
    limit: int,
)
    requires
        distinct_ids(out),
    ensures
        distinct_ids(merge_rows(out, rows, limit).0),
        out.is_prefix_of(merge_rows(out, rows, limit).0),
        out.len() < limit ==> merge_rows(out, rows, limit).0.len() <= limit,
        merge_rows(out, rows, limit).0.len() <= out.len() + 1 || merge_rows(out, rows, limit).0.len()
            <= limit,
    decreases rows.len(),
{
    if rows.len() > 0 {
        match rows[0] {
            Err(e) => {},
            Ok(e) => {
                if has_id(out, e.id) {
                    lemma_merge_rows(out, rows.drop_first(), limit);
                } else {
                    let o2 = out.push(e);
                    assert(distinct_ids(o2)) by {
                        assert forall|j: int, k: int| 0 <= j < k < o2.len() implies (#[trigger] o2[j]).id
                            != (#[trigger] o2[k]).id by {
                            if k == out.len() {
                                assert(out[j] == o2[j]);
                            } else {
                                assert(out[j] == o2[j] && out[k] == o2[k]);
                            }
                        }
                    }
                    if out.len() + 1 < limit {
                        lemma_merge_rows(o2, rows.drop_first(), limit);
                    }
                }
            },
        }
    }
}

/// Merging keeps every row: when no row failed to read, each row's entry
/// is among the results afterwards, unless the results reached `limit`.
/// What was there before stays in front.
pub proof fn lemma_merge_rows_keeps_every_row(
    out: Seq<EntrySummary>,
    rows: Seq<Result<EntrySummary, AppError>>,
    limit: int,
)
    requires
        forall|i: int| 0 <= i < rows.len() ==> (#[trigger] rows[i]) is Ok,
    ensures
        merge_rows(out, rows, limit).1 is None,
        out.is_prefix_of(merge_rows(out, rows, limit).0),
        merge_rows(out, rows, limit).0.len() >= limit || forall|i: int|
            0 <= i < rows.len() ==> has_id(merge_rows(out, rows, limit).0, (#[trigger] rows[i])->Ok_0.id),
    decreases rows.len(),
{
    if rows.len() > 0 {
        let rest = rows.drop_first();
        assert forall|i: int| 0 <= i < rest.len() implies (#[trigger] rest[i]) is Ok by {
            assert(rest[i] == rows[i + 1]);
        }
        assert(rows[0] is Ok);
        let e = rows[0]->Ok_0;
        let r = merge_rows(out, rows, limit).0;
        if has_id(out, e.id) {
            lemma_merge_rows_keeps_every_row(out, rest, limit);
            let k = choose|k: int| 0 <= k < out.len() && (#[trigger] out[k]).id == e.id;
            assert(r[k] == out[k]);
            if r.len() < limit {
                assert forall|i: int| 0 <= i < rows.len() implies has_id(r, (#[trigger] rows[i])->Ok_0.id) by {
                    if i > 0 {
                        assert(rows[i] == rest[i - 1]);
                    }
                }
            }
        } else if out.len() + 1 >= limit {
            assert(out.is_prefix_of(out.push(e))) by {
                assert(out.push(e).take(out.len() as int) == out);
            }
        } else {
            let o2 = out.push(e);
            lemma_merge_rows_keeps_every_row(o2, rest, limit);
            assert(out.is_prefix_of(r)) by {
                assert(o2.take(out.len() as int) == out);
                assert(r.take(out.len() as int) == o2.take(out.len() as int));
            }
            assert(r[out.len() as int] == o2[out.len() as int]);
            if r.len() < limit {
                assert forall|i: int| 0 <= i < rows.len() implies has_id(r, (#[trigger] rows[i])->Ok_0.id) by {
                    if i > 0 {
                        assert(rows[i] == rest[i - 1]);
                    }
                }
            }
        }
    }
}

/// Whether some entry of `out` has the id `id`.
fn contains_id(out: &Vec<EntrySummary>, id: i64) -> (r: bool)
    ensures
        r == has_id(out@, id),
{
    let mut k: usize = 0;
    while k < out.len()
        invariant
            k <= out@.len(),
            forall|j: int| 0 <= j < k ==> (#[trigger] out@[j]).id != id,
        decreases out@.len() - k,
    {
        if out[k].id == id {
            return true;
        }
        k += 1;
    }
    false
}

/// Appends the rows of one lookup to `out`, skipping ids already present
/// and stopping once `out` holds `limit` entries; a row that failed to read
/// ends the merge with its error.
pub fn push_rows(
    rows: Vec<Result<EntrySummary, AppError>>,
    limit: usize,
    out: &mut Vec<EntrySummary>,
) -> (r: Result<(), AppError>)
    ensures
        merge_rows(old(out)@, rows@, limit as int) == (final(out)@, match r {
            Ok(_) => None,
            Err(e) => Some(e),
        }),
{
    let ghost all = rows@;
    let ghost start = out@;
    for row in it: rows.into_iter()
        invariant
            it.seq() == all,
            start == old(out)@,
            merge_rows(start, all, limit as int) == merge_rows(
                out@,
                all.skip(it.index() as int),
                limit as int,
            ),
    {
        let ghost rest = all.skip(it.index() as int);
        assert(rest[0] == row);
        assert(rest.drop_first() == all.skip(it.index() + 1));
        match row {
            Err(e) => {
                assert(merge_rows(out@, rest, limit as int) == (out@, Some(e)));
                return Err(e);
            },
            Ok(entry) => {
                if !contains_id(out, entry.id) {
                    let ghost before = out@;
                    out.push(entry);
                    if out.len() >= limit {
                        assert(merge_rows(before, rest, limit as int) == (out@, None::<AppError>));
                        return Ok(());
                    }
                }
            },
        }
    }
    assert(all.skip(all.len() as int) == Seq::<Result<EntrySummary, AppError>>::empty());
    Ok(())
}

/// Which column a dictionary lookup matches against.
#[derive(Debug, Clone, Copy, PartialEq, Eq, Structural)]
pub enum QueryKind {
    /// `simplified` or `traditional` equals the text.
    HanziExact,
    /// `simplified` or `traditional` matches the text as a `LIKE` pattern
    /// with `ESCAPE '\'`.
    HanziLike,
    /// `pinyin_flat` equals the text.
    PinyinExact,
    /// `pinyin_flat` starts with the text.
    PinyinPrefix,
    /// The English full-text index matches the text (an FTS5 expression).
    English,
}

/// One dictionary lookup to run, ordered by `char_len, id` and capped at
/// the search limit.
#[derive(Debug, Clone, PartialEq, Eq)]
pub struct SearchQuery {
    pub kind: QueryKind,
    pub text: String,
}

/// Largest number of results a search may be asked for.
pub const MAX_LIMIT: usize = 200;

/// Stages of a search; a search walks them in this order.
pub const STAGE_HANZI_EXACT: u8 = 0;
pub const STAGE_HANZI_PREFIX: u8 = 1;
pub const STAGE_HANZI_CONTAINS: u8 = 2;
pub const STAGE_PINYIN_EXACT: u8 = 3;
pub const STAGE_PINYIN_PREFIX: u8 = 4;
pub const STAGE_ENGLISH: u8 = 5;
pub const STAGE_DONE: u8 = 6;

/// A dictionary search in progress. The caller asks for the next lookup
/// with [`SearchRun::next_query`], runs it against the dictionary with the
/// run's limit, hands the rows back with [`SearchRun::feed`], and takes the
/// results once no lookup is left.
pub struct SearchRun {
    /// The trimmed query.
    pub query: String,
    /// The flat pinyin form of the query.
    pub flat: String,
    /// Results requested, between 1 and [`MAX_LIMIT`].
    pub limit: usize,
    /// Whether the query is routed to the latin (pinyin and English) search.
    pub latin: bool,
    /// The next stage to consider.
    pub stage: u8,
    /// Whether a lookup was handed out and its rows are awaited.
    pub awaiting: bool,
    /// Results so far.
    pub out: Vec<EntrySummary>,
}

/// How far past the limit a hanzi search may have gone: every completed
/// lookup after the first may add one entry beyond the limit. `stage` is the
/// next stage, `awaiting` whether the last lookup handed out is still
/// running.
pub open spec fn hanzi_slack(stage: u8, awaiting: bool) -> int {
    if stage == STAGE_HANZI_CONTAINS {
        if awaiting {
            0
        } else {
            1
        }
    } else if stage == STAGE_DONE {
        if awaiting {
            1
        } else {
            2
        }
    } else {
        0
    }
}

/// The lookup to run from stage `st` on, and the stage after it, for the
/// trimmed query `q` with flat pinyin `flat`, `short` telling whether the
/// results are still short of the limit. A hanzi search runs its three
/// lookups (exact, prefix, substring) unconditionally; a latin search looks
/// up the exact flat pinyin when there is any, then the flat pinyin as a
/// prefix when it has two letters or more and results are still short, then
/// the English terms when there are any and results are still short.
pub open spec fn plan(q: Seq<char>, flat: Seq<char>, short: bool, st: int) -> (
    int,
    Option<(QueryKind, Seq<char>)>,
)
    decreases STAGE_DONE - st,
{
    if st == STAGE_HANZI_EXACT {
        (STAGE_HANZI_PREFIX as int, Some((QueryKind::HanziExact, q)))
    } else if st == STAGE_HANZI_PREFIX {
        (STAGE_HANZI_CONTAINS as int, Some((QueryKind::HanziLike, spec_escape_like(q) + seq!['%'])))
    } else if st == STAGE_HANZI_CONTAINS {
        (STAGE_DONE as int, Some((QueryKind::HanziLike, seq!['%'] + spec_escape_like(q) + seq!['%'])))
    } else if st == STAGE_PINYIN_EXACT {
        if flat.len() > 0 {
            (STAGE_PINYIN_PREFIX as int, Some((QueryKind::PinyinExact, flat)))
        } else {
            plan(q, flat, short, STAGE_PINYIN_PREFIX as int)
        }
    } else if st == STAGE_PINYIN_PREFIX {
        if flat.len() >= 2 && short {
            (STAGE_ENGLISH as int, Some((QueryKind::PinyinPrefix, flat)))
        } else {
            plan(q, flat, short, STAGE_ENGLISH as int)
        }
    } else if st == STAGE_ENGLISH {
        if short && spec_english_match(q) is Some {
            (STAGE_DONE as int, Some((QueryKind::English, spec_english_match(q)->0)))
        } else {
            (STAGE_DONE as int, None)
        }
    } else {
        (STAGE_DONE as int, None)
    }
}

/// The lookups of a hanzi search, all run whatever the results so far: the
/// query exactly, then as a `LIKE` prefix (the escaped query then `%`),
/// then as a `LIKE` substring (`%`, the escaped query, `%`); nothing after.
/// The escaped query stands for exactly the query under `LIKE`'s escape
/// rule.
pub proof fn lemma_plan_hanzi_lookups(q: Seq<char>, flat: Seq<char>, short: bool)
    ensures
        plan(q, flat, short, STAGE_HANZI_EXACT as int) == (
            STAGE_HANZI_PREFIX as int,
            Some((QueryKind::HanziExact, q)),
        ),
        plan(q, flat, short, STAGE_HANZI_PREFIX as int) == (
            STAGE_HANZI_CONTAINS as int,
            Some((QueryKind::HanziLike, spec_escape_like(q) + seq!['%'])),
        ),
        plan(q, flat, short, STAGE_HANZI_CONTAINS as int) == (
            STAGE_DONE as int,
            Some((QueryKind::HanziLike, seq!['%'] + spec_escape_like(q) + seq!['%'])),
        ),
        plan(q, flat, short, STAGE_DONE as int).1 is None,
        unescape_like(spec_escape_like(q)) == q,
{
    lemma_escape_like_roundtrip(q);
}

/// The pinyin lookups of a latin search: a query with any flat pinyin is
/// first looked up by exact flat pinyin; then, while results are short of
/// the limit, a flat pinyin of two letters or more is looked up as a
/// prefix, and a one-letter one skips straight to the English lookup.
pub proof fn lemma_plan_pinyin_lookups(q: Seq<char>, flat: Seq<char>, short: bool)
    ensures
        flat.len() > 0 ==> plan(q, flat, short, STAGE_PINYIN_EXACT as int) == (
            STAGE_PINYIN_PREFIX as int,
            Some((QueryKind::PinyinExact, flat)),
        ),
        flat.len() >= 2 && short ==> plan(q, flat, short, STAGE_PINYIN_PREFIX as int) == (
            STAGE_ENGLISH as int,
            Some((QueryKind::PinyinPrefix, flat)),
        ),
        flat.len() < 2 ==> plan(q, flat, short, STAGE_PINYIN_PREFIX as int) == plan(
            q,
            flat,
            short,
            STAGE_ENGLISH as int,
        ),
        !short ==> plan(q, flat, short, STAGE_PINYIN_PREFIX as int) == (
            STAGE_DONE as int,
            None::<(QueryKind, Seq<char>)>,
        ),
{
    reveal_with_fuel(plan, 2);
}

impl SearchRun {
    /// The run's invariant.
    pub open spec fn wf(&self) -> bool {
        &&& 1 <= self.limit <= MAX_LIMIT
        &&& self.flat@ == spec_flat_pinyin(self.query@)
        &&& distinct_ids(self.out@)
        &&& if self.latin {
            &&& STAGE_PINYIN_EXACT <= self.stage <= STAGE_DONE
            &&& self.out@.len() <= self.limit
            &&& self.awaiting ==> self.out@.len() < self.limit
            &&& self.stage == STAGE_PINYIN_EXACT ==> self.out@.len() == 0 && !self.awaiting
        } else {
            &&& (self.stage <= STAGE_HANZI_CONTAINS || self.stage == STAGE_DONE)
            &&& self.out@.len() <= self.limit + hanzi_slack(self.stage, self.awaiting)
            &&& (self.stage == STAGE_HANZI_EXACT || (self.stage == STAGE_HANZI_PREFIX
                && self.awaiting)) ==> self.out@.len() == 0
            &&& self.stage == STAGE_HANZI_EXACT ==> !self.awaiting
        }
    }

    /// The lookup to run next and the stage after it.
    pub open spec fn planned(&self) -> (int, Option<(QueryKind, Seq<char>)>) {
        plan(self.query@, self.flat@, self.out@.len() < self.limit, self.stage as int)
    }

    /// Starts a search (see [`search`]): trims the query, bounds the limit to `1..=200`, and
    /// routes a query holding CJK to the hanzi search and any other
    /// non-empty query to the latin search. An empty query runs no lookup.
    pub fn new(query: &str, limit: usize) -> (r: SearchRun)
        ensures
            r.wf(),
            r.query@ == spec_trim(query@),
            r.limit == (if limit < 1 {
                1
            } else if limit > MAX_LIMIT {
                MAX_LIMIT
            } else {
                limit
            }),
            r.out@.len() == 0,
            !r.awaiting,
            r.latin == (spec_trim(query@).len() > 0 && !spec_contains_cjk(spec_trim(query@))),
            r.stage == (if spec_trim(query@).len() == 0 {
                STAGE_DONE
            } else if spec_contains_cjk(spec_trim(query@)) {
                STAGE_HANZI_EXACT
            } else {
                STAGE_PINYIN_EXACT
            }),
    {
        let q = trim(query);
        let limit = if limit < 1 {
            1
        } else if limit > MAX_LIMIT {
            MAX_LIMIT
        } else {
            limit
        };
        let flat = flat_pinyin(q.as_str());
        let empty = q.as_str().is_empty();
        let cjk = contains_cjk(q.as_str());
        let (latin, stage) = if empty {
            (false, STAGE_DONE)
        } else if cjk {
            (false, STAGE_HANZI_EXACT)
        } else {
            (true, STAGE_PINYIN_EXACT)
        };
        SearchRun { query: q, flat, limit, latin, stage, awaiting: false, out: Vec::new() }
    }

    /// The limit every lookup of this search is run with.
    pub fn limit(&self) -> (r: usize)
        ensures
            r == self.limit,
    {
        self.limit
    }

    /// The next lookup to run, or `None` once the search is complete.
    pub fn next_query(&mut self) -> (r: Option<SearchQuery>)
        requires
            old(self).wf(),
            !old(self).awaiting,
        ensures
            final(self).wf(),
            final(self).query == old(self).query,
            final(self).flat == old(self).flat,
            final(self).limit == old(self).limit,
            final(self).latin == old(self).latin,
            final(self).out == old(self).out,
            final(self).stage == old(self).planned().0,
            final(self).awaiting == r is Some,
            match old(self).planned().1 {
                None => r is None,
                Some((kind, text)) => r matches Some(sq) && sq.kind == kind && sq.text@ == text,
            },
    {
        proof {
            reveal_with_fuel(plan, 4);
        }
        if self.stage == STAGE_HANZI_EXACT {
            self.stage = STAGE_HANZI_PREFIX;
            self.awaiting = true;
            return Some(SearchQuery { kind: QueryKind::HanziExact, text: self.query.clone() });
        }
        if self.stage == STAGE_HANZI_PREFIX {
            let mut p = escape_like(self.query.as_str());
            push_char(&mut p, '%');
            self.stage = STAGE_HANZI_CONTAINS;
            self.awaiting = true;
            return Some(SearchQuery { kind: QueryKind::HanziLike, text: p });
        }
        if self.stage == STAGE_HANZI_CONTAINS {
            let e = escape_like(self.query.as_str());
            let mut p = concat("%", e.as_str());
            push_char(&mut p, '%');
            self.stage = STAGE_DONE;
            self.awaiting = true;
            proof {
                reveal_strlit("%");
            }
            return Some(SearchQuery { kind: QueryKind::HanziLike, text: p });
        }
        if self.stage == STAGE_PINYIN_EXACT {
            if self.flat.as_str().is_empty() {
                self.stage = STAGE_PINYIN_PREFIX;
            } else {
                self.stage = STAGE_PINYIN_PREFIX;
                self.awaiting = true;
                return Some(SearchQuery { kind: QueryKind::PinyinExact, text: self.flat.clone() });
            }
        }
        if self.stage == STAGE_PINYIN_PREFIX {
            let flat_len = self.flat.as_str().unicode_len();
            if flat_len >= 2 && self.out.len() < self.limit {
                self.stage = STAGE_ENGLISH;
                self.awaiting = true;
                return Some(SearchQuery { kind: QueryKind::PinyinPrefix, text: self.flat.clone() });
            } else {
                self.stage = STAGE_ENGLISH;
            }
        }
        if self.stage == STAGE_ENGLISH {
            self.stage = STAGE_DONE;
            if self.out.len() < self.limit {
                match english_match(self.query.as_str()) {
                    Some(m) => {
                        self.awaiting = true;
                        return Some(SearchQuery { kind: QueryKind::English, text: m });
                    },
                    None => {},
                }
            }
        }
        self.stage = STAGE_DONE;
        None
    }

    /// Takes the rows of the lookup last handed out. A row that failed to
    /// read ends the search with its error.
    pub fn feed(&mut self, rows: Vec<Result<EntrySummary, AppError>>) -> (r: Result<(), AppError>)
        requires
            old(self).wf(),
            old(self).awaiting,
        ensures
            final(self).wf(),
            !final(self).awaiting,
            final(self).query == old(self).query,
            final(self).flat == old(self).flat,
            final(self).limit == old(self).limit,
            final(self).latin == old(self).latin,
            final(self).stage == old(self).stage,
            merge_rows(old(self).out@, rows@, old(self).limit as int) == (final(self).out@, match r {
                Ok(_) => None,
                Err(e) => Some(e),
            }),
    {
        proof {
            lemma_merge_rows(self.out@, rows@, self.limit as int);
        }
        let limit = self.limit;
        let r = push_rows(rows, limit, &mut self.out);
        self.awaiting = false;
        r
    }

    /// The results: distinct entries, in the order found; at most `limit`
    /// of them for a latin search, and at most two more for a hanzi search.
    pub fn results(self) -> (r: Vec<EntrySummary>)
        requires
            self.wf(),
        ensures
            r@ == self.out@,
            distinct_ids(r@),
            r@.len() <= self.limit + 2,
            self.latin ==> r@.len() <= self.limit,
    {
        self.out
    }
}

/// The outcome of looking up one entry by id: the entry, `not found: entry
/// <id>` when no row has that id, or the database error.
pub fn get_entry(id: i64, found: Result<Option<EntrySummary>, AppError>) -> (r: Result<
    EntrySummary,
    AppError,
>)
    ensures
        match found {
            Ok(Some(e)) => r == Ok::<EntrySummary, AppError>(e),
            Ok(None) => r matches Err(AppError::NotFound(m)) && m@ == "entry "@ + decimal(
                id as int,
            ),
            Err(e) => r == Err::<EntrySummary, AppError>(e),
        },
{
    match found {
        Ok(Some(e)) => Ok(e),
        Ok(None) => {
            let mut m = to_string("entry ");
            push_decimal_i64(&mut m, id);
            Err(AppError::NotFound(m))
        },
        Err(e) => Err(e),
    }
}

/// Starts a dictionary search for `query` returning up to `limit` entries;
/// see [`SearchRun`] for how it is driven.
pub fn search(query: &str, limit: usize) -> (r: SearchRun)
    ensures
        r.wf(),
        r.query@ == spec_trim(query@),
        r.limit == (if limit < 1 {
            1
        } else if limit > MAX_LIMIT {
            MAX_LIMIT
        } else {
            limit
        }),
        r.out@.len() == 0,
        !r.awaiting,
        r.latin == (spec_trim(query@).len() > 0 && !spec_contains_cjk(spec_trim(query@))),
        r.stage == (if spec_trim(query@).len() == 0 {
            STAGE_DONE
        } else if spec_contains_cjk(spec_trim(query@)) {
            STAGE_HANZI_EXACT
        } else {
            STAGE_PINYIN_EXACT
        }),
{
    SearchRun::new(query, limit)
}

/// The characters of the segments' surfaces, one after another.
pub open spec fn surfaces(segs: Seq<Segment>) -> Seq<char>
    decreases segs.len(),
{
    if segs.len() == 0 {
        Seq::empty()
    } else {
        surfaces(segs.drop_last()) + segs.last().surface@
    }
}

/// Where the run of non-CJK characters starting at `pos` ends: the first
/// CJK character at or after `pos`, or the end of `chars`.
pub open spec fn run_end(chars: Seq<char>, pos: int) -> int
    decreases chars.len() - pos,
{
    if pos >= chars.len() || spec_is_cjk(chars[pos]) {
        pos
    } else {
        run_end(chars, pos + 1)
    }
}

/// The longest candidate tried at `pos`: `max_word_len` characters, fewer
/// near the end of the text, never fewer than one.
pub open spec fn first_candidate_len(n: int, pos: int, max_word_len: int) -> int {
    let m = if max_word_len < n - pos {
        max_word_len
    } else {
        n - pos
    };
    if m < 1 {
        1
    } else {
        m
    }
}

/// The first candidate offered at a CJK position covers as much text as
/// allowed: at least one character, within the text, at most
/// `max_word_len` characters (one when that is zero), and either reaching
/// the end of the text or exactly that long.
pub proof fn lemma_first_candidate_longest(n: int, pos: int, max_word_len: int)
    requires
        0 <= pos < n,
        0 <= max_word_len,
    ensures
        ({
            let k = first_candidate_len(n, pos, max_word_len);
            let longest = if max_word_len < 1 {
                1
            } else {
                max_word_len
            };
            &&& 1 <= k <= longest
            &&& pos + k <= n
            &&& pos + k == n || k == longest
        }),
{
}

/// Whether no character of `s` is CJK.
pub open spec fn no_cjk(s: Seq<char>) -> bool {
    forall|i: int| 0 <= i < s.len() ==> !spec_is_cjk(#[trigger] s[i])
}

/// What a segment may be: a dictionary word (starting with a CJK
/// character, at most `max_len` characters, with its entry), a single CJK
/// character no word starts with, or a run of non-CJK characters.
pub open spec fn segment_shape(seg: Segment, max_len: int) -> bool {
    &&& seg.surface@.len() > 0
    &&& match seg.entry {
        Some(_) => spec_is_cjk(seg.surface@[0]) && seg.surface@.len() <= max_len,
        None => (seg.surface@.len() == 1 && spec_is_cjk(seg.surface@[0])) || no_cjk(seg.surface@),
    }
}

/// Whether a segment is a run of non-CJK characters.
pub open spec fn is_plain_run(seg: Segment) -> bool {
    seg.entry is None && no_cjk(seg.surface@)
}

/// Greedy longest-match segmentation of pasted text in progress. The
/// caller asks for the next word to look up with
/// [`Segmentation::next_lookup`], looks it up by exact simplified form,
/// and hands the entry found (or `None`) to [`Segmentation::feed`], until no
/// lookup is left.
pub struct Segmentation {
    /// The trimmed text.
    pub chars: Vec<char>,
    /// The longest word tried.
    pub max_word_len: usize,
    /// How much of the text is segmented.
    pub pos: usize,
    /// The length of the candidate word handed out, 0 when none is.
    pub cand_len: usize,
    /// The segments so far.
    pub segments: Vec<Segment>,
}

impl Segmentation {
    /// The longest a found word may be.
    pub open spec fn max_len(&self) -> int {
        if self.max_word_len < 1 {
            1
        } else {
            self.max_word_len as int
        }
    }

    /// The segmentation's invariant: the segments spell out the text read
    /// so far, each has one of the allowed shapes, and no two runs of
    /// non-CJK characters are adjacent.
    pub open spec fn wf(&self) -> bool {
        let chars = self.chars@;
        let segs = self.segments@;
        &&& self.pos <= chars.len()
        &&& surfaces(segs) == chars.take(self.pos as int)
        &&& forall|k: int| 0 <= k < segs.len() ==> segment_shape(#[trigger] segs[k], self.max_len())
        &&& forall|k: int|
            0 <= k < segs.len() - 1 ==> !(is_plain_run(#[trigger] segs[k]) && is_plain_run(
                segs[k + 1],
            ))
        &&& segs.len() > 0 && is_plain_run(segs.last()) ==> (self.pos == chars.len() || spec_is_cjk(
            chars[self.pos as int],
        ))
        &&& self.cand_len > 0 ==> {
            &&& self.pos + self.cand_len <= chars.len()
            &&& self.cand_len <= self.max_len()
            &&& spec_is_cjk(chars[self.pos as int])
        }
    }

    /// Whether the whole text is segmented.
    pub open spec fn done(&self) -> bool {
        self.pos == self.chars@.len() && self.cand_len == 0
    }
}

/// Starts segmenting `text` (trimmed) into dictionary words of at most
/// `max_word_len` characters.
pub fn segment_lookup(text: &str, max_word_len: usize) -> (r: Segmentation)
    ensures
        r.wf(),
        r.chars@ == spec_trim(text@),
        r.max_word_len == max_word_len,
        r.pos == 0,
        r.cand_len == 0,
        r.segments@.len() == 0,
{
    let all = chars_of(text);
    let (a, b) = trim_bounds(&all);
    let mut chars: Vec<char> = Vec::new();
    let mut i = a;
    while i < b
        invariant
            a <= i <= b <= all@.len(),
            chars@ == all@.subrange(a as int, i as int),
        decreases b - i,
    {
        chars.push(all[i]);
        i += 1;
    }
    let r = Segmentation { chars, max_word_len, pos: 0, cand_len: 0, segments: Vec::new() };
    assert(r.chars@.take(0) == Seq::<char>::empty());
    r
}

impl Segmentation {
    /// The word to look up next, or `None` when the text is fully
    /// segmented. A run of non-CJK characters (punctuation, latin, digits)
    /// becomes one segment without looking anything up. At a CJK character
    /// the longest candidate is offered first; after a miss
    /// [`Segmentation::feed`] shortens it.
    pub fn next_lookup(&mut self) -> (r: Option<String>)
        requires
            old(self).wf(),
        ensures
            final(self).wf(),
            final(self).chars == old(self).chars,
            final(self).max_word_len == old(self).max_word_len,
            old(self).cand_len > 0 ==> *final(self) == *old(self),
            old(self).cand_len == 0 ==> {
                let chars = old(self).chars@;
                let end = run_end(chars, old(self).pos as int);
                &&& final(self).pos == end
                &&& end == old(self).pos ==> final(self).segments == old(self).segments
                &&& end > old(self).pos ==> {
                    &&& final(self).segments@.len() == old(self).segments@.len() + 1
                    &&& final(self).segments@.drop_last() == old(self).segments@
                    &&& final(self).segments@.last().entry is None
                    &&& final(self).segments@.last().surface@ == chars.subrange(
                        old(self).pos as int,
                        end,
                    )
                }
                &&& final(self).cand_len == if end == chars.len() {
                    0
                } else {
                    first_candidate_len(chars.len() as int, end, old(self).max_word_len as int)
                }
            },
            r is None <==> final(self).done(),
            r matches Some(w) ==> w@ == final(self).chars@.subrange(
                final(self).pos as int,
                final(self).pos + final(self).cand_len,
            ),
    {
        let n = self.chars.len();
        if self.cand_len > 0 {
            return Some(string_of(&self.chars, self.pos, self.pos + self.cand_len));
        }
        let start = self.pos;
        let mut i = start;
        while i < n && !is_cjk(self.chars[i])
            invariant
                start <= i <= n == self.chars@.len(),
                run_end(self.chars@, start as int) == run_end(self.chars@, i as int),
                forall|j: int| start <= j < i ==> !spec_is_cjk(#[trigger] self.chars@[j]),
            decreases n - i,
        {
            i += 1;
        }
        if i > start {
            let ghost old_segs = self.segments@;
            let seg = Segment { surface: string_of(&self.chars, start, i), entry: None };
            self.segments.push(seg);
            self.pos = i;
            proof {
                let segs = self.segments@;
                assert(segs.drop_last() == old_segs);
                assert(self.chars@.take(i as int) == self.chars@.take(start as int)
                    + self.chars@.subrange(start as int, i as int));
                assert(no_cjk(segs.last().surface@));
                assert(segment_shape(segs.last(), self.max_len()));
                assert forall|k: int| 0 <= k < segs.len() implies segment_shape(
                    #[trigger] segs[k],
                    self.max_len(),
                ) by {
                    if k < old_segs.len() {
                        assert(segs[k] == old_segs[k]);
                    }
                }
                assert forall|k: int| 0 <= k < segs.len() - 1 implies !(is_plain_run(
                    #[trigger] segs[k],
                ) && is_plain_run(segs[k + 1])) by {
                    if k < old_segs.len() - 1 {
                        assert(segs[k] == old_segs[k] && segs[k + 1] == old_segs[k + 1]);
                    } else {
                        assert(segs[k] == old_segs.last());
                        assert(spec_is_cjk(self.chars@[start as int]) || old_segs.len() == 0 || !is_plain_run(old_segs.last()));
                    }
                }
            }
        }
        if i == n {
            return None;
        }
        let rest = n - i;
        let m = if self.max_word_len < rest {
            self.max_word_len
        } else {
            rest
        };
        self.cand_len = if m < 1 {
            1
        } else {
            m
        };
        Some(string_of(&self.chars, i, i + self.cand_len))
    }

    /// Takes the entry found for the candidate handed out: a found word
    /// becomes a segment with its entry; after a miss the candidate is
    /// shortened by one, and a single character that is no word becomes a
    /// segment of its own.
    pub fn feed(&mut self, found: Option<EntrySummary>)
        requires
            old(self).wf(),
            old(self).cand_len > 0,
        ensures
            final(self).wf(),
            final(self).chars == old(self).chars,
            final(self).max_word_len == old(self).max_word_len,
            match found {
                Some(e) => {
                    &&& final(self).pos == old(self).pos + old(self).cand_len
                    &&& final(self).cand_len == 0
                    &&& final(self).segments@.len() == old(self).segments@.len() + 1
                    &&& final(self).segments@.drop_last() == old(self).segments@
                    &&& final(self).segments@.last().entry == Some(e)
                    &&& final(self).segments@.last().surface@ == old(self).chars@.subrange(
                        old(self).pos as int,
                        old(self).pos + old(self).cand_len,
                    )
                },
                None => if old(self).cand_len > 1 {
                    &&& final(self).pos == old(self).pos
                    &&& final(self).cand_len == old(self).cand_len - 1
                    &&& final(self).segments == old(self).segments
                } else {
                    &&& final(self).pos == old(self).pos + 1
                    &&& final(self).cand_len == 0
                    &&& final(self).segments@.len() == old(self).segments@.len() + 1
                    &&& final(self).segments@.drop_last() == old(self).segments@
                    &&& final(self).segments@.last().entry is None
                    &&& final(self).segments@.last().surface@ == seq![
                        old(self).chars@[old(self).pos as int],
                    ]
                },
            },
    {
        let ghost old_segs = self.segments@;
        let start = self.pos;
        let n = self.chars.len();
        let len = match found {
            Some(_) => self.cand_len,
            None => if self.cand_len > 1 {
                self.cand_len = self.cand_len - 1;
                return ;
            } else {
                1
            },
        };
        let seg = Segment { surface: string_of(&self.chars, start, start + len), entry: found };
        self.segments.push(seg);
        self.pos = start + len;
        self.cand_len = 0;
        proof {
            let segs = self.segments@;
            let chars = self.chars@;
            assert(segs.drop_last() == old_segs);
            assert(chars.take(self.pos as int) == chars.take(start as int) + chars.subrange(
                start as int,
                self.pos as int,
            ));
            assert(segs.last().surface@[0] == chars[start as int]);
            assert forall|k: int| 0 <= k < segs.len() implies segment_shape(
                #[trigger] segs[k],
                self.max_len(),
            ) by {
                if k < old_segs.len() {
                    assert(segs[k] == old_segs[k]);
                }
            }
            assert forall|k: int| 0 <= k < segs.len() - 1 implies !(is_plain_run(
                #[trigger] segs[k],
            ) && is_plain_run(segs[k + 1])) by {
                if k < old_segs.len() - 1 {
                    assert(segs[k] == old_segs[k] && segs[k + 1] == old_segs[k + 1]);
                } else {
                    assert(segs[k + 1].surface@[0] == chars[start as int]);
                }
            }
        }
    }

    /// The segments of the whole text: their surfaces spell out the trimmed
    /// text, each has one of the allowed shapes, and each run of non-CJK
    /// characters is one segment.
    pub fn segments(self) -> (r: Vec<Segment>)
        requires
            self.wf(),
            self.done(),
        ensures
            r@ == self.segments@,
            surfaces(r@) == self.chars@,
            forall|k: int| 0 <= k < r@.len() ==> segment_shape(#[trigger] r@[k], self.max_len()),
            forall|k: int|
                0 <= k < r@.len() - 1 ==> !(is_plain_run(#[trigger] r@[k]) && is_plain_run(
                    r@[k + 1],
                )),
    {
        assert(self.chars@.take(self.chars@.len() as int) == self.chars@);
        self.segments
    }
}

} // verus!
