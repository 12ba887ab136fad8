//! Inline spans and block-level constructs of the markdown dialect.
//!
//! An inline span is one of link, bold, italic, inline code or image.
//! Spans are extracted left to right; at each position the candidates
//! are tried in that fixed priority order, the first match wins, and
//! the inside of a matched span is never re-scanned.

use vstd::prelude::*;

verus! {

use crate::text::{
    find_char_from, last_char_in, replace_first, replace_all, placeholder, matches_at,
};
use crate::text::{
    chars_of, string_of, copy_range, append_str, append_vec, replace_first_vec, replace_all_vec,
    find_char_vec, last_char_in_vec, placeholder_chars, lemma_placeholder_len,
};

// ---------------------------------------------------------------------
// Inline tokens
// ---------------------------------------------------------------------

/// An inline span found in a line of text.  `raw` is the exact matched
/// source substring and serves as the masking key.
pub enum InlineToken {
    Link { href: String, text: String, raw: String },
    Bold { value: String, raw: String },
    Code { value: String, raw: String },
    Italic { value: String, raw: String },
    Image { alt: String, src: String, raw: String },
}

/// The mathematical image of an `InlineToken`.
pub enum TokenModel {
    Link { href: Seq<char>, text: Seq<char>, raw: Seq<char> },
    Bold { value: Seq<char>, raw: Seq<char> },
    Code { value: Seq<char>, raw: Seq<char> },
    Italic { value: Seq<char>, raw: Seq<char> },
    Image { alt: Seq<char>, src: Seq<char>, raw: Seq<char> },
}

impl View for InlineToken {
    type V = TokenModel;

    open spec fn view(&self) -> TokenModel {
        match self {
            InlineToken::Link { href, text, raw } => TokenModel::Link {
                href: href@,
                text: text@,
                raw: raw@,
            },
            InlineToken::Bold { value, raw } => TokenModel::Bold { value: value@, raw: raw@ },
            InlineToken::Code { value, raw } => TokenModel::Code { value: value@, raw: raw@ },
            InlineToken::Italic { value, raw } => TokenModel::Italic { value: value@, raw: raw@ },
            InlineToken::Image { alt, src, raw } => TokenModel::Image {
                alt: alt@,
                src: src@,
                raw: raw@,
            },
        }
    }
}

/// The views of a sequence of tokens.
pub open spec fn views_of(ts: Seq<InlineToken>) -> Seq<TokenModel> {
    ts.map_values(|t: InlineToken| t@)
}

/// The raw matched source text of a token.
pub open spec fn raw_of(t: TokenModel) -> Seq<char> {
    match t {
        TokenModel::Link { raw, .. } => raw,
        TokenModel::Bold { raw, .. } => raw,
        TokenModel::Code { raw, .. } => raw,
        TokenModel::Italic { raw, .. } => raw,
        TokenModel::Image { raw, .. } => raw,
    }
}

// ---------------------------------------------------------------------
// Matching one span at one position
// ---------------------------------------------------------------------

/// A link `[text](href)` starting at `i`: `text` runs to the first `]`,
/// `href` to the last `)` before the next `]` (or end); both non-empty.
pub open spec fn link_at(s: Seq<char>, i: int) -> Option<TokenModel> {
    if 0 <= i && i < s.len() && s[i] == '[' {
        match find_char_from(s, ']', i + 1) {
            None => None,
            Some(j) => if j > i + 1 && j + 1 < s.len() && s[j + 1] == '(' {
                let stop = match find_char_from(s, ']', j + 2) {
                    None => s.len() as int,
                    Some(x) => x,
                };
                match last_char_in(s, ')', j + 3, stop) {
                    None => None,
                    Some(k) => Some(
                        TokenModel::Link {
                            text: s.subrange(i + 1, j),
                            href: s.subrange(j + 2, k),
                            raw: s.subrange(i, k + 1),
                        },
                    ),
                }
            } else {
                None
            },
        }
    } else {
        None
    }
}

/// An image `![alt](src)` starting at `i`, shaped like a link after `!`.
pub open spec fn image_at(s: Seq<char>, i: int) -> Option<TokenModel> {
    if 0 <= i && i + 1 < s.len() && s[i] == '!' && s[i + 1] == '[' {
        match find_char_from(s, ']', i + 2) {
            None => None,
            Some(j) => if j > i + 2 && j + 1 < s.len() && s[j + 1] == '(' {
                let stop = match find_char_from(s, ']', j + 2) {
                    None => s.len() as int,
                    Some(x) => x,
                };
                match last_char_in(s, ')', j + 3, stop) {
                    None => None,
                    Some(k) => Some(
                        TokenModel::Image {
                            alt: s.subrange(i + 2, j),
                            src: s.subrange(j + 2, k),
                            raw: s.subrange(i, k + 1),
                        },
                    ),
                }
            } else {
                None
            },
        }
    } else {
        None
    }
}

/// Bold `**value**` starting at `i`: `value` is the non-empty run up to
/// the first `*`, which must begin a closing `**`.
pub open spec fn bold_at(s: Seq<char>, i: int) -> Option<TokenModel> {
    if 0 <= i && i + 1 < s.len() && s[i] == '*' && s[i + 1] == '*' {
        match find_char_from(s, '*', i + 2) {
            None => None,
            Some(k) => if k > i + 2 && k + 1 < s.len() && s[k + 1] == '*' {
                Some(TokenModel::Bold { value: s.subrange(i + 2, k), raw: s.subrange(i, k + 2) })
            } else {
                None
            },
        }
    } else {
        None
    }
}

/// Italic `_value_` starting at `i`: `value` is the non-empty run up to
/// the first following `_`.
pub open spec fn italic_at(s: Seq<char>, i: int) -> Option<TokenModel> {
    if 0 <= i && i < s.len() && s[i] == '_' {
        match find_char_from(s, '_', i + 1) {
            None => None,
            Some(k) => if k > i + 1 {
                Some(TokenModel::Italic { value: s.subrange(i + 1, k), raw: s.subrange(i, k + 1) })
            } else {
                None
            },
        }
    } else {
        None
    }
}

/// Inline code `` `value` `` starting at `i`: `value` is the non-empty
/// run up to the first following backtick.
pub open spec fn code_at(s: Seq<char>, i: int) -> Option<TokenModel> {
    if 0 <= i && i < s.len() && s[i] == '`' {
        match find_char_from(s, '`', i + 1) {
            None => None,
            Some(k) => if k > i + 1 {
                Some(TokenModel::Code { value: s.subrange(i + 1, k), raw: s.subrange(i, k + 1) })
            } else {
                None
            },
        }
    } else {
        None
    }
}

/// The span matched at position `i`, if any: the candidates are tried
/// in the order link, bold, italic, code, image, and the first match
/// wins (their start characters are in fact mutually exclusive).
pub open spec fn token_at(s: Seq<char>, i: int) -> Option<TokenModel> {
    if link_at(s, i) is Some {
        link_at(s, i)
    } else if bold_at(s, i) is Some {
        bold_at(s, i)
    } else if italic_at(s, i) is Some {
        italic_at(s, i)
    } else if code_at(s, i) is Some {
        code_at(s, i)
    } else {
        image_at(s, i)
    }
}

/// A matched span is never empty and ends within the line.
pub proof fn lemma_token_at(s: Seq<char>, i: int)
    ensures
        match token_at(s, i) {
            Some(t) => 0 <= i && i < i + raw_of(t).len() && i + raw_of(t).len() <= s.len(),
            None => true,
        },
{
    if link_at(s, i) is Some {
        lemma_find_bounds_link(s, i);
    } else if bold_at(s, i) is Some {
        if 0 <= i && i + 1 < s.len() && s[i] == '*' && s[i + 1] == '*' {
            crate::text::lemma_find_char_from(s, '*', i + 2);
        }
    } else if italic_at(s, i) is Some {
        if 0 <= i && i < s.len() && s[i] == '_' {
            crate::text::lemma_find_char_from(s, '_', i + 1);
        }
    } else if code_at(s, i) is Some {
        if 0 <= i && i < s.len() && s[i] == '`' {
            crate::text::lemma_find_char_from(s, '`', i + 1);
        }
    } else if image_at(s, i) is Some {
        lemma_find_bounds_image(s, i);
    }
}

proof fn lemma_find_bounds_link(s: Seq<char>, i: int)
    requires
        link_at(s, i) is Some,
    ensures
        i + raw_of(link_at(s, i)->0).len() <= s.len(),
        raw_of(link_at(s, i)->0).len() > 0,
{
    crate::text::lemma_find_char_from(s, ']', i + 1);
    let j = find_char_from(s, ']', i + 1)->0;
    crate::text::lemma_find_char_from(s, ']', j + 2);
    let stop = match find_char_from(s, ']', j + 2) {
        None => s.len() as int,
        Some(x) => x,
    };
    crate::text::lemma_last_char_in(s, ')', j + 3, stop);
}

proof fn lemma_find_bounds_image(s: Seq<char>, i: int)
    requires
        image_at(s, i) is Some,
    ensures
        i + raw_of(image_at(s, i)->0).len() <= s.len(),
        raw_of(image_at(s, i)->0).len() > 0,
{
    crate::text::lemma_find_char_from(s, ']', i + 2);
    let j = find_char_from(s, ']', i + 2)->0;
    crate::text::lemma_find_char_from(s, ']', j + 2);
    let stop = match find_char_from(s, ']', j + 2) {
        None => s.len() as int,
        Some(x) => x,
    };
    crate::text::lemma_last_char_in(s, ')', j + 3, stop);
}

// ---------------------------------------------------------------------
// Scanning a whole line
// ---------------------------------------------------------------------

/// All spans of `s` from position `i` on, left to right; after a match
/// the scan resumes just past its raw text, otherwise it advances by
/// one character.  The final branch never arises — `lemma_token_at`
/// shows a matched raw is non-empty and in bounds — it only makes the
/// recursion's termination measure self-evident.
pub open spec fn scan_from(s: Seq<char>, i: int) -> Seq<TokenModel>
    decreases s.len() - i when 0 <= i
{
    if i >= s.len() {
        Seq::empty()
    } else {
        match token_at(s, i) {
            None => scan_from(s, i + 1),
            Some(t) => {
                let l = raw_of(t).len() as int;
                if 1 <= l && i + l <= s.len() {
                    seq![t] + scan_from(s, i + l)
                } else {
                    seq![t]
                }
            },
        }
    }
}

/// The spans of a whole line.
pub open spec fn scan_line(s: Seq<char>) -> Seq<TokenModel> {
    scan_from(s, 0)
}

/// The position of the first span match at or after `i` (the line's
/// length if there is none).
pub open spec fn next_match(s: Seq<char>, i: int) -> int
    decreases s.len() - i when 0 <= i
{
    if i >= s.len() {
        i
    } else if token_at(s, i) is Some {
        i
    } else {
        next_match(s, i + 1)
    }
}

/// Up to the first match nothing matches, and the scan is unchanged.
pub proof fn lemma_next_match(s: Seq<char>, i: int)
    requires
        0 <= i <= s.len(),
    ensures
        ({
            let p = next_match(s, i);
            &&& i <= p <= s.len()
            &&& (forall|q: int| i <= q < p ==> token_at(s, q) is None)
            &&& (p < s.len() ==> token_at(s, p) is Some)
            &&& scan_from(s, i) == scan_from(s, p)
        }),
    decreases s.len() - i,
{
    if i < s.len() && token_at(s, i) is None {
        lemma_next_match(s, i + 1);
    }
}

/// An empty scan means no position matches any span.
pub proof fn lemma_scan_empty(s: Seq<char>, j: int)
    requires
        0 <= j,
        scan_from(s, j).len() == 0,
    ensures
        forall|q: int| j <= q < s.len() ==> token_at(s, q) is None,
    decreases s.len() - j,
{
    if j < s.len() {
        assert(token_at(s, j) is None);
        lemma_scan_empty(s, j + 1);
    }
}

/// The matched raw text is exactly the covered slice of the line.
pub proof fn lemma_raw_at(s: Seq<char>, p: int)
    requires
        token_at(s, p) is Some,
    ensures
        ({
            let raw = raw_of(token_at(s, p)->0);
            let l = raw.len() as int;
            &&& 0 <= p && p + l <= s.len()
            &&& l >= 3
            &&& raw == s.subrange(p, p + l)
        }),
{
    if link_at(s, p) is Some {
        crate::text::lemma_find_char_from(s, ']', p + 1);
        let j = find_char_from(s, ']', p + 1)->0;
        crate::text::lemma_find_char_from(s, ']', j + 2);
        let stop = spec_stop(s, j);
        crate::text::lemma_last_char_in(s, ')', j + 3, stop);
        let k = last_char_in(s, ')', j + 3, stop)->0;
        assert(raw_of(link_at(s, p)->0) == s.subrange(p, k + 1));
    } else if bold_at(s, p) is Some {
        crate::text::lemma_find_char_from(s, '*', p + 2);
        let k = find_char_from(s, '*', p + 2)->0;
        assert(raw_of(bold_at(s, p)->0) == s.subrange(p, k + 2));
    } else if italic_at(s, p) is Some {
        crate::text::lemma_find_char_from(s, '_', p + 1);
        let k = find_char_from(s, '_', p + 1)->0;
        assert(raw_of(italic_at(s, p)->0) == s.subrange(p, k + 1));
    } else if code_at(s, p) is Some {
        crate::text::lemma_find_char_from(s, '`', p + 1);
        let k = find_char_from(s, '`', p + 1)->0;
        assert(raw_of(code_at(s, p)->0) == s.subrange(p, k + 1));
    } else {
        crate::text::lemma_find_char_from(s, ']', p + 2);
        let j = find_char_from(s, ']', p + 2)->0;
        crate::text::lemma_find_char_from(s, ']', j + 2);
        let stop = spec_stop(s, j);
        crate::text::lemma_last_char_in(s, ')', j + 3, stop);
        let k = last_char_in(s, ')', j + 3, stop)->0;
        assert(raw_of(image_at(s, p)->0) == s.subrange(p, k + 1));
    }
}

/// Where the bracketed href of a link or image stops being scanned:
/// at the next `]`, or at the end of the line.
pub open spec fn spec_stop(s: Seq<char>, j: int) -> int {
    match find_char_from(s, ']', j + 2) {
        None => s.len() as int,
        Some(x) => x,
    }
}

/// One character of two equal slices of `s`, read at both places.
proof fn lemma_char_at(s: Seq<char>, p: int, q: int, l: int, r: int)
    requires
        0 <= r < l,
        0 <= p,
        p + l <= s.len(),
        0 <= q,
        q + l <= s.len(),
        s.subrange(q, q + l) == s.subrange(p, p + l),
    ensures
        s[q + r] == s[p + r],
{
    assert(s.subrange(q, q + l)[r] == s[q + r]);
    assert(s.subrange(p, p + l)[r] == s[p + r]);
}

/// An occurrence of a matched raw anywhere in the line is itself a
/// span match: the raw carries its own complete delimiters.
pub proof fn lemma_raw_occurrence_matches(s: Seq<char>, p: int, q: int)
    requires
        token_at(s, p) is Some,
        matches_at(s, raw_of(token_at(s, p)->0), q),
    ensures
        token_at(s, q) is Some,
{
    let raw = raw_of(token_at(s, p)->0);
    let l = raw.len() as int;
    lemma_raw_at(s, p);
    assert(s.subrange(q, q + l) == s.subrange(p, p + l));
    lemma_char_at(s, p, q, l, 0);
    if link_at(s, p) is Some {
        lemma_bracket_occurrence(s, p, q, l, 0);
        assert(link_at(s, q) is Some);
    } else if bold_at(s, p) is Some {
        lemma_bold_occurrence(s, p, q, l);
        assert(s[q] == '*');
        assert(token_at(s, q) == bold_at(s, q));
    } else if italic_at(s, p) is Some {
        crate::text::lemma_find_char_from(s, '_', p + 1);
        lemma_delim_occurrence(s, p, q, l, '_');
        assert(s[q] == '_');
        assert(italic_at(s, q) is Some);
        assert(token_at(s, q) == italic_at(s, q));
    } else if code_at(s, p) is Some {
        crate::text::lemma_find_char_from(s, '`', p + 1);
        lemma_delim_occurrence(s, p, q, l, '`');
        assert(s[q] == '`');
        assert(code_at(s, q) is Some);
        assert(token_at(s, q) == code_at(s, q));
    } else {
        lemma_bracket_occurrence(s, p, q, l, 1);
        assert(s[q] == '!');
        assert(token_at(s, q) == image_at(s, q));
    }
}

/// An occurrence of a bold raw is matched by the bold recognizer.
proof fn lemma_bold_occurrence(s: Seq<char>, p: int, q: int, l: int)
    requires
        bold_at(s, p) is Some,
        l == raw_of(bold_at(s, p)->0).len(),
        0 <= q && q + l <= s.len(),
        0 <= p && p + l <= s.len(),
        s.subrange(q, q + l) == s.subrange(p, p + l),
    ensures
        bold_at(s, q) is Some,
{
    crate::text::lemma_find_char_from(s, '*', p + 2);
    let k = find_char_from(s, '*', p + 2)->0;
    assert(raw_of(bold_at(s, p)->0) == s.subrange(p, k + 2));
    assert(l == k + 2 - p);
    lemma_char_at(s, p, q, l, 0);
    lemma_char_at(s, p, q, l, 1);
    assert(s[q] == '*' && s[q + 1] == '*');
    crate::text::lemma_find_char_from(s, '*', q + 2);
    let res = find_char_from(s, '*', q + 2);
    lemma_char_at(s, p, q, l, k - p);
    assert(s[q + (k - p)] == '*');
    match res {
        None => {
            assert(s[q + (k - p)] != '*');
        },
        Some(k2) => {
            if k2 < q + (k - p) {
                // inside the value run, which holds no `*`
                lemma_char_at(s, p, q, l, k2 - q);
                assert(s[p + (k2 - q)] != '*');
            }
            if k2 > q + (k - p) {
                assert(s[q + (k - p)] != '*');
            }
            assert(k2 == q + (k - p));
            lemma_char_at(s, p, q, l, k + 1 - p);
            assert(s[k2 + 1] == '*');
            assert(bold_at(s, q) is Some);
        },
    }
}

/// An occurrence of an italic or inline-code raw is matched by the
/// same single-delimiter recognizer.
proof fn lemma_delim_occurrence(s: Seq<char>, p: int, q: int, l: int, c: char)
    requires
        0 <= p && p < s.len() && s[p] == c,
        find_char_from(s, c, p + 1) is Some,
        find_char_from(s, c, p + 1)->0 > p + 1,
        l == find_char_from(s, c, p + 1)->0 + 1 - p,
        0 <= q && q + l <= s.len(),
        p + l <= s.len(),
        s.subrange(q, q + l) == s.subrange(p, p + l),
    ensures
        find_char_from(s, c, q + 1) == Some(q + l - 1),
        s[q] == c,
        q + l - 1 > q + 1,
{
    crate::text::lemma_find_char_from(s, c, p + 1);
    let k = find_char_from(s, c, p + 1)->0;
    lemma_char_at(s, p, q, l, 0);
    assert(s[q] == c);
    crate::text::lemma_find_char_from(s, c, q + 1);
    let res = find_char_from(s, c, q + 1);
    lemma_char_at(s, p, q, l, k - p);
    assert(s[q + (k - p)] == c);
    match res {
        None => {
            assert(s[q + (k - p)] != c);
        },
        Some(k2) => {
            if k2 < q + (k - p) {
                lemma_char_at(s, p, q, l, k2 - q);
                assert(s[p + (k2 - q)] != c);
            }
            if k2 > q + (k - p) {
                assert(s[q + (k - p)] != c);
            }
            assert(k2 == q + (k - p));
        },
    }
}

/// An occurrence of a link or image raw is matched by the same
/// bracket-shaped recognizer (`d` is 0 for a link, 1 for an image).
proof fn lemma_bracket_occurrence(s: Seq<char>, p: int, q: int, l: int, d: int)
    requires
        d == 0 || d == 1,
        d == 0 ==> link_at(s, p) is Some && l == raw_of(link_at(s, p)->0).len(),
        d == 1 ==> image_at(s, p) is Some && l == raw_of(image_at(s, p)->0).len(),
        0 <= q && q + l <= s.len(),
        0 <= p && p + l <= s.len(),
        s.subrange(q, q + l) == s.subrange(p, p + l),
    ensures
        d == 0 ==> link_at(s, q) is Some,
        d == 1 ==> image_at(s, q) is Some,
{
    crate::text::lemma_find_char_from(s, ']', p + 1 + d);
    let j = find_char_from(s, ']', p + 1 + d)->0;
    crate::text::lemma_find_char_from(s, ']', j + 2);
    let stop = spec_stop(s, j);
    crate::text::lemma_last_char_in(s, ')', j + 3, stop);
    let k = last_char_in(s, ')', j + 3, stop)->0;
    if d == 0 {
        assert(raw_of(link_at(s, p)->0) == s.subrange(p, k + 1));
    } else {
        assert(raw_of(image_at(s, p)->0) == s.subrange(p, k + 1));
        lemma_char_at(s, p, q, l, 1);
        assert(s[q + 1] == '[');
    }
    assert(l == k + 1 - p);
    lemma_char_at(s, p, q, l, 0);
    // the closing bracket of the text part lands at the same offset
    crate::text::lemma_find_char_from(s, ']', q + 1 + d);
    let res = find_char_from(s, ']', q + 1 + d);
    lemma_char_at(s, p, q, l, j - p);
    assert(s[q + (j - p)] == ']');
    let j2: int = match res {
        None => {
            assert(s[q + (j - p)] != ']');
            0
        },
        Some(x) => {
            if x < q + (j - p) {
                lemma_char_at(s, p, q, l, x - q);
                assert(s[p + (x - q)] != ']');
            }
            if x > q + (j - p) {
                assert(s[q + (j - p)] != ']');
            }
            x
        },
    };
    assert(j2 == q + (j - p));
    lemma_char_at(s, p, q, l, j + 1 - p);
    assert(s[j2 + 1] == '(');
    assert(j2 + 1 < s.len());
    // no `]` stands anywhere in the href part of the raw
    assert forall|m: int| j2 + 2 <= m < q + l implies s[m] != ']' by {
        let o = p + (m - q);
        lemma_char_at(s, p, q, l, m - q);
        assert(s[m] == s[o]);
        if o == j + 1 {
        } else if o == k {
            assert(s[k] == ')');
        } else {
            assert(j + 2 <= o < stop);
        }
    }
    // so the href scan of the occurrence stops at or after its end
    crate::text::lemma_find_char_from(s, ']', j2 + 2);
    let stop2 = spec_stop(s, j2);
    assert(stop2 >= q + l) by {
        if find_char_from(s, ']', j2 + 2) is Some {
            let x = find_char_from(s, ']', j2 + 2)->0;
            if x < q + l {
                assert(s[x] != ']');
            }
        }
    }
    assert(stop2 <= s.len());
    // the raw's closing parenthesis lies in the scanned range
    crate::text::lemma_last_char_in(s, ')', j2 + 3, stop2);
    lemma_char_at(s, p, q, l, k - p);
    assert(s[q + l - 1] == ')');
    match last_char_in(s, ')', j2 + 3, stop2) {
        None => {
            assert(s[q + l - 1] != ')');
        },
        Some(k2) => {
            assert(k2 > j2 + 2);
        },
    }
}

impl InlineToken {
    /// Extracts all inline spans of `text`, in order of appearance.
    pub fn extract(text: &String) -> (tokens: Vec<InlineToken>)
        ensures
            views_of(tokens@) == scan_line(text@),
    {
        let s = chars_of(text.as_str());
        let mut tokens: Vec<InlineToken> = Vec::new();
        let mut i: usize = 0;
        proof {
            assert(views_of(tokens@) + scan_from(s@, 0) =~= scan_from(s@, 0));
        }
        while i < s.len()
            invariant
                s@ == text@,
                i <= s@.len(),
                scan_line(text@) == views_of(tokens@) + scan_from(s@, i as int),
            decreases s@.len() - i,
        {
            let ghost old_toks = tokens@;
            match try_token(&s, i) {
                None => {
                    proof {
                        assert(scan_from(s@, i as int) == scan_from(s@, i as int + 1));
                    }
                    i += 1;
                },
                Some(p) => {
                    let (tok, end) = p;
                    proof {
                        let t = tok@;
                        let l = raw_of(t).len() as int;
                        assert(scan_from(s@, i as int) == seq![t] + scan_from(s@, i as int + l));
                        assert(views_of(old_toks.push(tok)) =~= views_of(old_toks) + seq![t]);
                        assert((views_of(old_toks) + seq![t]) + scan_from(s@, end as int)
                            =~= views_of(old_toks) + (seq![t] + scan_from(s@, end as int)));
                    }
                    tokens.push(tok);
                    i = end;
                },
            }
        }
        proof {
            assert(views_of(tokens@) + scan_from(s@, i as int) =~= views_of(tokens@));
        }
        tokens
    }

    /// The raw matched source text of this token.
    pub fn get_raw(&self) -> (r: &String)
        ensures
            r@ == raw_of(self@),
    {
        match self {
            InlineToken::Link { raw, .. } => raw,
            InlineToken::Bold { raw, .. } => raw,
            InlineToken::Code { raw, .. } => raw,
            InlineToken::Italic { raw, .. } => raw,
            InlineToken::Image { raw, .. } => raw,
        }
    }
}

// ---------------------------------------------------------------------
// Executable matchers
// ---------------------------------------------------------------------

fn try_link(s: &Vec<char>, i: usize) -> (r: Option<(InlineToken, usize)>)
    requires
        i < s@.len(),
    ensures
        match r {
            Some(p) => link_at(s@, i as int) == Some(p.0@) && p.1 == i + raw_of(p.0@).len() && i
                < p.1 <= s@.len(),
            None => link_at(s@, i as int) is None,
        },
{
    let sl = s.len();
    if s[i] != '[' {
        return None;
    }
    let j = match find_char_vec(s, ']', i + 1) {
        None => {
            return None;
        },
        Some(j) => j,
    };
    if !(j > i + 1 && j + 1 < sl) {
        return None;
    }
    if s[j + 1] != '(' {
        return None;
    }
    let stop = match find_char_vec(s, ']', j + 2) {
        None => sl,
        Some(x) => x,
    };
    if stop <= j + 2 {
        proof {
            assert(last_char_in(s@, ')', j as int + 3, stop as int) is None);
        }
        return None;
    }
    let k = match last_char_in_vec(s, ')', j + 3, stop) {
        None => {
            return None;
        },
        Some(k) => k,
    };
    let text = string_of(&copy_range(s, i + 1, j));
    let href = string_of(&copy_range(s, j + 2, k));
    let raw = string_of(&copy_range(s, i, k + 1));
    Some((InlineToken::Link { href, text, raw }, k + 1))
}

fn try_image(s: &Vec<char>, i: usize) -> (r: Option<(InlineToken, usize)>)
    requires
        i < s@.len(),
    ensures
        match r {
            Some(p) => image_at(s@, i as int) == Some(p.0@) && p.1 == i + raw_of(p.0@).len() && i
                < p.1 <= s@.len(),
            None => image_at(s@, i as int) is None,
        },
{
    let sl = s.len();
    if s[i] != '!' {
        return None;
    }
    if !(i + 1 < sl) {
        return None;
    }
    if s[i + 1] != '[' {
        return None;
    }
    let j = match find_char_vec(s, ']', i + 2) {
        None => {
            return None;
        },
        Some(j) => j,
    };
    if !(j > i + 2 && j + 1 < sl) {
        return None;
    }
    if s[j + 1] != '(' {
        return None;
    }
    let stop = match find_char_vec(s, ']', j + 2) {
        None => sl,
        Some(x) => x,
    };
    if stop <= j + 2 {
        proof {
            assert(last_char_in(s@, ')', j as int + 3, stop as int) is None);
        }
        return None;
    }
    let k = match last_char_in_vec(s, ')', j + 3, stop) {
        None => {
            return None;
        },
        Some(k) => k,
    };
    let alt = string_of(&copy_range(s, i + 2, j));
    let src = string_of(&copy_range(s, j + 2, k));
    let raw = string_of(&copy_range(s, i, k + 1));
    Some((InlineToken::Image { alt, src, raw }, k + 1))
}

fn try_bold(s: &Vec<char>, i: usize) -> (r: Option<(InlineToken, usize)>)
    requires
        i < s@.len(),
    ensures
        match r {
            Some(p) => bold_at(s@, i as int) == Some(p.0@) && p.1 == i + raw_of(p.0@).len() && i
                < p.1 <= s@.len(),
            None => bold_at(s@, i as int) is None,
        },
{
    let sl = s.len();
    if s[i] != '*' {
        return None;
    }
    if !(i + 1 < sl) {
        return None;
    }
    if s[i + 1] != '*' {
        return None;
    }
    let k = match find_char_vec(s, '*', i + 2) {
        None => {
            return None;
        },
        Some(k) => k,
    };
    if !(k > i + 2 && k + 1 < sl) {
        return None;
    }
    if s[k + 1] != '*' {
        return None;
    }
    let value = string_of(&copy_range(s, i + 2, k));
    let raw = string_of(&copy_range(s, i, k + 2));
    Some((InlineToken::Bold { value, raw }, k + 2))
}

fn try_italic(s: &Vec<char>, i: usize) -> (r: Option<(InlineToken, usize)>)
    requires
        i < s@.len(),
    ensures
        match r {
            Some(p) => italic_at(s@, i as int) == Some(p.0@) && p.1 == i + raw_of(p.0@).len() && i
                < p.1 <= s@.len(),
            None => italic_at(s@, i as int) is None,
        },
{
    let sl = s.len();
    if s[i] != '_' {
        return None;
    }
    let k = match find_char_vec(s, '_', i + 1) {
        None => {
            return None;
        },
        Some(k) => k,
    };
    if !(k > i + 1) {
        return None;
    }
    let value = string_of(&copy_range(s, i + 1, k));
    let raw = string_of(&copy_range(s, i, k + 1));
    Some((InlineToken::Italic { value, raw }, k + 1))
}

fn try_code(s: &Vec<char>, i: usize) -> (r: Option<(InlineToken, usize)>)
    requires
        i < s@.len(),
    ensures
        match r {
            Some(p) => code_at(s@, i as int) == Some(p.0@) && p.1 == i + raw_of(p.0@).len() && i
                < p.1 <= s@.len(),
            None => code_at(s@, i as int) is None,
        },
{
    let sl = s.len();
    if s[i] != '`' {
        return None;
    }
    let k = match find_char_vec(s, '`', i + 1) {
        None => {
            return None;
        },
        Some(k) => k,
    };
    if !(k > i + 1) {
        return None;
    }
    let value = string_of(&copy_range(s, i + 1, k));
    let raw = string_of(&copy_range(s, i, k + 1));
    Some((InlineToken::Code { value, raw }, k + 1))
}

// ---------------------------------------------------------------------
// Masking and unmasking
// ---------------------------------------------------------------------

/// `text` after the tokens from position `i` on have been masked: for
/// each token in order, the first remaining occurrence of its raw text
/// is replaced by the placeholder `<$n>` (n is its 1-based position).
pub open spec fn mask_from(text: Seq<char>, toks: Seq<TokenModel>, i: int) -> Seq<char>
    decreases toks.len() - i when 0 <= i
{
    if i >= toks.len() {
        text
    } else {
        mask_from(replace_first(text, raw_of(toks[i]), placeholder(i + 1)), toks, i + 1)
    }
}

/// `text` with every token masked by its positional placeholder.
pub open spec fn mask_spec(text: Seq<char>, toks: Seq<TokenModel>) -> Seq<char> {
    mask_from(text, toks, 0)
}

/// The HTML rendering of one inline token.
pub open spec fn token_html(t: TokenModel) -> Seq<char> {
    match t {
        TokenModel::Bold { value, .. } => "<strong>"@ + value + "</strong>"@,
        TokenModel::Code { value, .. } => "<span class=\"inline-code\">"@ + value + "</span>"@,
        TokenModel::Image { alt, src, .. } => "<img src='"@ + src + "' alt='"@ + alt + "'/>"@,
        TokenModel::Italic { value, .. } => "<i>"@ + value + "</i>"@,
        TokenModel::Link { href, text, .. } => "<a href='"@ + href + "'>"@ + text + "</a>"@,
    }
}

/// `line` after the placeholders of the tokens from position `i` on
/// have been substituted: every occurrence of `<$n>` becomes the HTML
/// of token n.
pub open spec fn unmask_from(line: Seq<char>, toks: Seq<TokenModel>, i: int) -> Seq<char>
    decreases toks.len() - i when 0 <= i
{
    if i >= toks.len() {
        line
    } else {
        unmask_from(replace_all(line, placeholder(i + 1), token_html(toks[i])), toks, i + 1)
    }
}

/// `line` with every placeholder replaced by its token's HTML.
pub open spec fn unmask_spec(line: Seq<char>, toks: Seq<TokenModel>) -> Seq<char> {
    unmask_from(line, toks, 0)
}

impl InlineToken {
    /// Replaces each token's raw text in `text` by its placeholder.
    pub fn mask_tokens(text: String, tokens: &Vec<InlineToken>) -> (r: String)
        ensures
            r@ == mask_spec(text@, views_of(tokens@)),
    {
        let mut cur = chars_of(text.as_str());
        let mut idx: usize = 0;
        while idx < tokens.len()
            invariant
                idx <= tokens@.len(),
                mask_spec(text@, views_of(tokens@)) == mask_from(
                    cur@,
                    views_of(tokens@),
                    idx as int,
                ),
            decreases tokens@.len() - idx,
        {
            let raw_c = chars_of(tokens[idx].get_raw().as_str());
            let ph = placeholder_chars(idx + 1);
            proof {
                assert(views_of(tokens@)[idx as int] == tokens@[idx as int]@);
            }
            cur = replace_first_vec(&cur, &raw_c, &ph);
            idx += 1;
        }
        string_of(&cur)
    }

    /// Substitutes each placeholder `<$n>` in `line` by the HTML of
    /// token n.
    pub fn into_html(line: &str, tokens: &Vec<InlineToken>) -> (r: String)
        ensures
            r@ == unmask_spec(line@, views_of(tokens@)),
    {
        let mut cur = chars_of(line);
        let mut idx: usize = 0;
        while idx < tokens.len()
            invariant
                idx <= tokens@.len(),
                unmask_spec(line@, views_of(tokens@)) == unmask_from(
                    cur@,
                    views_of(tokens@),
                    idx as int,
                ),
            decreases tokens@.len() - idx,
        {
            let ph = placeholder_chars(idx + 1);
            let html = token_html_chars(&tokens[idx]);
            proof {
                assert(views_of(tokens@)[idx as int] == tokens@[idx as int]@);
                lemma_placeholder_len(idx as int + 1);
            }
            cur = replace_all_vec(&cur, &ph, &html);
            idx += 1;
        }
        string_of(&cur)
    }
}

/// The HTML rendering of one token, as characters.
fn token_html_chars(t: &InlineToken) -> (r: Vec<char>)
    ensures
        r@ == token_html(t@),
{
    let mut v: Vec<char> = Vec::new();
    match t {
        InlineToken::Bold { value, .. } => {
            append_str(&mut v, "<strong>");
            append_str(&mut v, value.as_str());
            append_str(&mut v, "</strong>");
        },
        InlineToken::Code { value, .. } => {
            append_str(&mut v, "<span class=\"inline-code\">");
            append_str(&mut v, value.as_str());
            append_str(&mut v, "</span>");
        },
        InlineToken::Image { alt, src, .. } => {
            append_str(&mut v, "<img src='");
            append_str(&mut v, src.as_str());
            append_str(&mut v, "' alt='");
            append_str(&mut v, alt.as_str());
            append_str(&mut v, "'/>");
        },
        InlineToken::Italic { value, .. } => {
            append_str(&mut v, "<i>");
            append_str(&mut v, value.as_str());
            append_str(&mut v, "</i>");
        },
        InlineToken::Link { href, text, .. } => {
            append_str(&mut v, "<a href='");
            append_str(&mut v, href.as_str());
            append_str(&mut v, "'>");
            append_str(&mut v, text.as_str());
            append_str(&mut v, "</a>");
        },
    }
    v
}

fn try_token(s: &Vec<char>, i: usize) -> (r: Option<(InlineToken, usize)>)
    requires
        i < s@.len(),
    ensures
        match r {
            Some(p) => token_at(s@, i as int) == Some(p.0@) && p.1 == i + raw_of(p.0@).len() && i
                < p.1 <= s@.len(),
            None => token_at(s@, i as int) is None,
        },
{
    let c = s[i];
    if c == '[' {
        try_link(s, i)
    } else if c == '*' {
        try_bold(s, i)
    } else if c == '_' {
        try_italic(s, i)
    } else if c == '`' {
        try_code(s, i)
    } else if c == '!' {
        try_image(s, i)
    } else {
        None
    }
}

} // verus!
