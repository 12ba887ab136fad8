//! Block-level constructs: headings, paragraphs, lists, code blocks,
//! quotes and blank-line markers, with their HTML renderings.

use vstd::prelude::*;

verus! {

use crate::is_space;
use crate::text::{
    run_end, first_non_space_from, trim_spec, is_blank, join_with, dec_digits, lemma_join_push,
    lemma_run_end,
};
use crate::text::{
    chars_of, string_of, copy_range, append_str, append_vec, trim_vec, trimmed_chars, run_end_vec,
    first_non_space_vec, dec_chars, is_space_exec,
};
use crate::tokens::{InlineToken, TokenModel, views_of, scan_line, mask_spec, unmask_spec};

// ---------------------------------------------------------------------
// Headings
// ---------------------------------------------------------------------

/// The level tag of a heading, `H1` through `H6`.
#[derive(Clone, Copy, PartialEq, Eq, Structural, Debug)]
pub enum HeadingType {
    H1,
    H2,
    H3,
    H4,
    H5,
    H6,
}

impl HeadingType {
    /// The numeric level of this heading type.
    pub open spec fn level(self) -> int {
        match self {
            HeadingType::H1 => 1,
            HeadingType::H2 => 2,
            HeadingType::H3 => 3,
            HeadingType::H4 => 4,
            HeadingType::H5 => 5,
            HeadingType::H6 => 6,
        }
    }

    /// The heading type for a run of `n` number signs, clamped to 6.
    pub open spec fn of_level(n: int) -> HeadingType {
        if n <= 1 {
            HeadingType::H1
        } else if n == 2 {
            HeadingType::H2
        } else if n == 3 {
            HeadingType::H3
        } else if n == 4 {
            HeadingType::H4
        } else if n == 5 {
            HeadingType::H5
        } else {
            HeadingType::H6
        }
    }

    /// The heading type a line yields: the count of its leading `#`
    /// characters, clamped to 6; `None` if it does not start with `#`.
    pub open spec fn of_line(s: Seq<char>) -> Option<HeadingType> {
        if s.len() > 0 && s[0] == '#' {
            Some(HeadingType::of_level(run_end(s, '#', 0)))
        } else {
            None
        }
    }

    /// Classifies `line` by its leading `#` run.
    pub fn new(line: &str) -> (r: Option<HeadingType>)
        ensures
            r == HeadingType::of_line(line@),
    {
        let s = chars_of(line);
        if s.len() == 0 {
            return None;
        }
        if s[0] != '#' {
            return None;
        }
        let n = run_end_vec(&s, '#', 0);
        Some(Self::from_count(n))
    }

    fn from_count(n: usize) -> (r: HeadingType)
        ensures
            r == HeadingType::of_level(n as int),
    {
        if n <= 1 {
            HeadingType::H1
        } else if n == 2 {
            HeadingType::H2
        } else if n == 3 {
            HeadingType::H3
        } else if n == 4 {
            HeadingType::H4
        } else if n == 5 {
            HeadingType::H5
        } else {
            HeadingType::H6
        }
    }

    /// The numeric level, 1 through 6.
    pub fn get_tag_num(&self) -> (r: u8)
        ensures
            r as int == self.level(),
            1 <= r <= 6,
    {
        match self {
            HeadingType::H1 => 1,
            HeadingType::H2 => 2,
            HeadingType::H3 => 3,
            HeadingType::H4 => 4,
            HeadingType::H5 => 5,
            _ => 6,
        }
    }
}

/// A trimmed line is a heading when its leading `#` run is followed by
/// whitespace and then at least one more character.
pub open spec fn heading_matches(t: Seq<char>) -> bool {
    &&& t.len() > 0
    &&& t[0] == '#'
    &&& run_end(t, '#', 0) < t.len()
    &&& is_space(t[run_end(t, '#', 0)])
    &&& first_non_space_from(t, run_end(t, '#', 0)) < t.len()
}

/// The level of a heading line: its count of leading `#`, clamped to 6.
pub open spec fn heading_level_of(t: Seq<char>) -> int {
    if run_end(t, '#', 0) <= 6 {
        run_end(t, '#', 0)
    } else {
        6
    }
}

/// The text of a heading line: what follows the whitespace run after
/// the leading `#` run.
pub open spec fn heading_text_of(t: Seq<char>) -> Seq<char> {
    t.subrange(first_non_space_from(t, run_end(t, '#', 0)), t.len() as int)
}

/// The mathematical image of a `Heading`.
pub struct HeadingModel {
    pub level: int,
    pub text: Seq<char>,
    pub tokens: Seq<TokenModel>,
}

/// The heading node a line yields.
pub open spec fn heading_model_of(t: Seq<char>) -> HeadingModel {
    let ht = heading_text_of(t);
    HeadingModel {
        level: heading_level_of(t),
        text: mask_spec(ht, scan_line(ht)),
        tokens: scan_line(ht),
    }
}

/// The HTML of a heading node.
pub open spec fn heading_html(m: HeadingModel) -> Seq<char> {
    "<h"@ + dec_digits(m.level) + ">"@ + unmask_spec(m.text, m.tokens) + "</h"@ + dec_digits(
        m.level,
    ) + ">"@
}

/// A heading block: level, masked text and its inline tokens.
pub struct Heading {
    h_type: HeadingType,
    text: String,
    inline_tokens: Vec<InlineToken>,
}

impl View for Heading {
    type V = HeadingModel;

    closed spec fn view(&self) -> HeadingModel {
        HeadingModel {
            level: self.h_type.level(),
            text: self.text@,
            tokens: views_of(self.inline_tokens@),
        }
    }
}

impl Heading {
    /// Recognizes a heading: the trimmed line must carry a `#` run,
    /// whitespace and non-empty text; the text is tokenized and masked.
    pub fn new(line: &str) -> (r: Option<Heading>)
        ensures
            r is Some <==> heading_matches(trim_spec(line@)),
            r is Some ==> r->0@ == heading_model_of(trim_spec(line@)),
    {
        let t = trimmed_chars(line);
        if t.len() == 0 {
            return None;
        }
        if t[0] != '#' {
            return None;
        }
        let n = run_end_vec(&t, '#', 0);
        if n >= t.len() {
            return None;
        }
        if !is_space_exec(t[n]) {
            return None;
        }
        let m = first_non_space_vec(&t, n);
        if m >= t.len() {
            return None;
        }
        proof {
            // the run has at least the leading `#`
            assert(run_end(t@, '#', 0) == run_end(t@, '#', 1));
            lemma_run_end(t@, '#', 1);
        }
        let txt = string_of(&copy_range(&t, m, t.len()));
        let tokens = InlineToken::extract(&txt);
        let masked = InlineToken::mask_tokens(txt, &tokens);
        let h_type = HeadingType::from_count(if n <= 6 {
            n
        } else {
            6
        });
        Some(Heading { h_type, text: masked, inline_tokens: tokens })
    }

    /// Renders `<h{n}>…</h{n}>` with the placeholders substituted.
    pub fn into_html(&self) -> (r: String)
        ensures
            r@ == heading_html(self@),
    {
        let mut v: Vec<char> = Vec::new();
        append_str(&mut v, "<h");
        let d = dec_chars(self.h_type.get_tag_num() as u64);
        append_vec(&mut v, &d);
        append_str(&mut v, ">");
        let body = InlineToken::into_html(self.text.as_str(), &self.inline_tokens);
        append_str(&mut v, body.as_str());
        append_str(&mut v, "</h");
        append_vec(&mut v, &d);
        append_str(&mut v, ">");
        proof {
            assert(v@ =~= heading_html(self@));
        }
        string_of(&v)
    }
}

// ---------------------------------------------------------------------
// Paragraphs
// ---------------------------------------------------------------------

/// The mathematical image of a `Paragraph`.
pub struct ParagraphModel {
    pub text: Seq<char>,
    pub tokens: Seq<TokenModel>,
}

/// The paragraph node a line yields.
pub open spec fn paragraph_model_of(l: Seq<char>) -> ParagraphModel {
    let t = trim_spec(l);
    ParagraphModel { text: mask_spec(t, scan_line(t)), tokens: scan_line(t) }
}

/// The HTML of a paragraph node.
pub open spec fn paragraph_html(m: ParagraphModel) -> Seq<char> {
    "<p>"@ + unmask_spec(m.text, m.tokens) + "</p>"@
}

/// A paragraph block: masked text and its inline tokens.
pub struct Paragraph {
    text: String,
    inline_tokens: Vec<InlineToken>,
}

impl View for Paragraph {
    type V = ParagraphModel;

    closed spec fn view(&self) -> ParagraphModel {
        ParagraphModel { text: self.text@, tokens: views_of(self.inline_tokens@) }
    }
}

impl Paragraph {
    /// Any non-blank line becomes a paragraph; a blank line does not.
    pub fn new(line: &str) -> (r: Option<Paragraph>)
        ensures
            r is Some <==> !is_blank(line@),
            r is Some ==> r->0@ == paragraph_model_of(line@),
    {
        let t = trimmed_chars(line);
        if t.len() == 0 {
            return None;
        }
        let txt = string_of(&t);
        let tokens = InlineToken::extract(&txt);
        let masked = InlineToken::mask_tokens(txt, &tokens);
        Some(Paragraph { text: masked, inline_tokens: tokens })
    }

    /// Renders `<p>…</p>` with the placeholders substituted.
    pub fn into_html(&self) -> (r: String)
        ensures
            r@ == paragraph_html(self@),
    {
        let mut v: Vec<char> = Vec::new();
        append_str(&mut v, "<p>");
        let body = InlineToken::into_html(self.text.as_str(), &self.inline_tokens);
        append_str(&mut v, body.as_str());
        append_str(&mut v, "</p>");
        proof {
            assert(v@ =~= paragraph_html(self@));
        }
        string_of(&v)
    }
}

// ---------------------------------------------------------------------
// Quotes
// ---------------------------------------------------------------------

/// The mathematical image of a `QuoteLine`.
pub struct QuoteLineModel {
    pub text: Seq<char>,
    pub tokens: Seq<TokenModel>,
}

/// The quote-line node a raw line yields: the line is trimmed (the
/// leading `>` stays part of the text), tokenized and masked.
pub open spec fn quote_line_of(l: Seq<char>) -> QuoteLineModel {
    let t = trim_spec(l);
    QuoteLineModel { text: mask_spec(t, scan_line(t)), tokens: scan_line(t) }
}

/// The HTML of one quote line.
pub open spec fn quote_line_html(m: QuoteLineModel) -> Seq<char> {
    "<p>"@ + unmask_spec(m.text, m.tokens) + "</p>"@
}

/// One line of a quote block.
pub struct QuoteLine {
    text: String,
    inline_tokens: Vec<InlineToken>,
}

impl View for QuoteLine {
    type V = QuoteLineModel;

    closed spec fn view(&self) -> QuoteLineModel {
        QuoteLineModel { text: self.text@, tokens: views_of(self.inline_tokens@) }
    }
}

impl QuoteLine {
    /// Trims, tokenizes and masks one line of a quote run.
    pub fn new(line: &str) -> (r: QuoteLine)
        ensures
            r@ == quote_line_of(line@),
    {
        let t = trimmed_chars(line);
        let txt = string_of(&t);
        let tokens = InlineToken::extract(&txt);
        let masked = InlineToken::mask_tokens(txt, &tokens);
        QuoteLine { text: masked, inline_tokens: tokens }
    }

    /// Renders `<p>…</p>` with the placeholders substituted.
    pub fn into_html(&self) -> (r: String)
        ensures
            r@ == quote_line_html(self@),
    {
        let mut v: Vec<char> = Vec::new();
        append_str(&mut v, "<p>");
        let body = InlineToken::into_html(self.text.as_str(), &self.inline_tokens);
        append_str(&mut v, body.as_str());
        append_str(&mut v, "</p>");
        proof {
            assert(v@ =~= quote_line_html(self@));
        }
        string_of(&v)
    }
}

/// The mathematical image of a `Quote`.
pub struct QuoteModel {
    pub lines: Seq<QuoteLineModel>,
}

/// A raw line continues a quote run when it starts with `>` untrimmed.
pub open spec fn starts_gt(l: Seq<char>) -> bool {
    l.len() > 0 && l[0] == '>'
}

/// Index of the first line at or after `i` that does not continue the
/// quote run.
pub open spec fn quote_run_end(lines: Seq<Seq<char>>, i: int) -> int
    decreases lines.len() - i when 0 <= i
{
    if i >= lines.len() {
        lines.len() as int
    } else if starts_gt(lines[i]) {
        quote_run_end(lines, i + 1)
    } else {
        i
    }
}

pub proof fn lemma_quote_run_end(lines: Seq<Seq<char>>, i: int)
    requires
        0 <= i <= lines.len(),
    ensures
        i <= quote_run_end(lines, i) <= lines.len(),
    decreases lines.len() - i,
{
    if i < lines.len() && starts_gt(lines[i]) {
        lemma_quote_run_end(lines, i + 1);
    }
}

/// The quote block starting at `idx`, with the index of the first line
/// past it: the run covers `idx` and every following line that starts
/// with `>`.
pub open spec fn quote_new_at(lines: Seq<Seq<char>>, idx: int) -> (Option<QuoteModel>, int) {
    let t = trim_spec(lines[idx]);
    if t.len() > 0 && t[0] == '>' {
        let e = quote_run_end(lines, idx + 1);
        if idx < e <= lines.len() {
            (
                Some(QuoteModel { lines: Seq::new((e - idx) as nat, |k: int| quote_line_of(lines[idx + k])) }),
                e,
            )
        } else {
            (None, idx)
        }
    } else {
        (None, idx)
    }
}

/// The HTML of a quote node: the lines' paragraphs joined by a
/// carriage return, wrapped in `<quote>` tags.
pub open spec fn quote_html(m: QuoteModel) -> Seq<char> {
    "<quote>"@ + join_with(
        Seq::new(m.lines.len(), |k: int| quote_line_html(m.lines[k])),
        "\r"@,
    ) + "</quote>"@
}

/// A quote block: one entry per consumed line.
pub struct Quote {
    lines: Vec<QuoteLine>,
}

impl View for Quote {
    type V = QuoteModel;

    closed spec fn view(&self) -> QuoteModel {
        QuoteModel { lines: Seq::new(self.lines@.len(), |k: int| self.lines@[k]@) }
    }
}

impl Quote {
    /// Recognizes a quote run beginning at `idx`: the first line must
    /// start with `>` after trimming, and the run extends over every
    /// following line that starts with `>`.
    pub fn new(lines: &Vec<String>, idx: usize) -> (r: (Option<Quote>, usize))
        requires
            idx < lines@.len(),
        ensures
            ({
                let s = quote_new_at(lines_view(lines@), idx as int);
                match r.0 {
                    Some(q) => s.0 == Some(q@) && r.1 as int == s.1 && idx < r.1 <= lines@.len(),
                    None => s.0 is None && r.1 == idx,
                }
            }),
    {
        let ghost lv = lines_view(lines@);
        let ll = lines.len();
        let t = trimmed_chars(lines[idx].as_str());
        if t.len() == 0 {
            return (None, idx);
        }
        if t[0] != '>' {
            return (None, idx);
        }
        let mut e: usize = idx + 1;
        while e < ll && starts_gt_exec(&lines[e])
            invariant
                idx + 1 <= e <= lines@.len(),
                ll == lines@.len(),
                lv == lines_view(lines@),
                lv.len() == lines@.len(),
                quote_run_end(lv, idx as int + 1) == quote_run_end(lv, e as int),
            decreases lines@.len() - e,
        {
            e += 1;
        }
        proof {
            assert(quote_run_end(lv, e as int) == e as int);
        }
        let mut qlines: Vec<QuoteLine> = Vec::new();
        let mut k: usize = idx;
        while k < e
            invariant
                idx <= k <= e <= lines@.len(),
                lv == lines_view(lines@),
                qlines@.len() == k - idx,
                forall|j: int| 0 <= j < qlines@.len() ==> qlines@[j]@ == quote_line_of(
                    lv[idx + j],
                ),
            decreases e - k,
        {
            qlines.push(QuoteLine::new(lines[k].as_str()));
            k += 1;
        }
        let q = Quote { lines: qlines };
        proof {
            let s = quote_new_at(lv, idx as int);
            assert(q@.lines =~= s.0->0.lines);
        }
        (Some(q), e)
    }

    /// Renders `<quote>…</quote>` with one `<p>` per line, joined by a
    /// carriage return.
    pub fn into_html(&self) -> (r: String)
        ensures
            r@ == quote_html(self@),
    {
        let mut v: Vec<char> = Vec::new();
        append_str(&mut v, "<quote>");
        let mut k: usize = 0;
        let ghost parts = Seq::new(self@.lines.len(), |j: int| quote_line_html(self@.lines[j]));
        proof {
            assert(v@ =~= "<quote>"@ + join_with(parts.take(0), "\r"@));
        }
        while k < self.lines.len()
            invariant
                k <= self.lines@.len(),
                parts == Seq::new(self@.lines.len(), |j: int| quote_line_html(self@.lines[j])),
                self@.lines.len() == self.lines@.len(),
                v@ == "<quote>"@ + join_with(parts.take(k as int), "\r"@),
            decreases self.lines@.len() - k,
        {
            if k > 0 {
                append_str(&mut v, "\r");
            }
            let h = self.lines[k].into_html();
            append_str(&mut v, h.as_str());
            proof {
                lemma_join_push(parts.take(k as int), "\r"@, parts[k as int]);
                assert(parts.take(k as int).push(parts[k as int]) =~= parts.take(k as int + 1));
                assert(v@ =~= "<quote>"@ + join_with(parts.take(k as int + 1), "\r"@));
            }
            k += 1;
        }
        append_str(&mut v, "</quote>");
        proof {
            assert(parts.take(self.lines@.len() as int) =~= parts);
            assert(v@ =~= quote_html(self@));
        }
        string_of(&v)
    }
}

fn starts_gt_exec(l: &String) -> (r: bool)
    ensures
        r == starts_gt(l@),
{
    let s = l.as_str();
    if s.unicode_len() == 0 {
        return false;
    }
    s.get_char(0) == '>'
}

/// The views of a sequence of lines.
pub open spec fn lines_view(ls: Seq<String>) -> Seq<Seq<char>> {
    ls.map_values(|l: String| l@)
}

// ---------------------------------------------------------------------
// Code blocks
// ---------------------------------------------------------------------

/// The mathematical image of a `CodeBlock`.
pub struct CodeBlockModel {
    pub lang: Seq<char>,
    pub lines: Seq<Seq<char>>,
}

/// The language label of a fence line: the trimmed line must start
/// with three backticks followed by at least one character.
pub open spec fn code_start_lang(t: Seq<char>) -> Option<Seq<char>> {
    if t.len() > 3 && t[0] == '`' && t[1] == '`' && t[2] == '`' {
        Some(t.subrange(3, t.len() as int))
    } else {
        None
    }
}

/// Index of the first closing fence (a line that is exactly three
/// backticks) at or after `i`, or the line count if there is none.
pub open spec fn fence_end(lines: Seq<Seq<char>>, i: int) -> int
    decreases lines.len() - i when 0 <= i
{
    if i >= lines.len() {
        lines.len() as int
    } else if lines[i] == "```"@ {
        i
    } else {
        fence_end(lines, i + 1)
    }
}

pub proof fn lemma_fence_end(lines: Seq<Seq<char>>, i: int)
    requires
        0 <= i <= lines.len(),
    ensures
        i <= fence_end(lines, i) <= lines.len(),
    decreases lines.len() - i,
{
    if i < lines.len() && lines[i] != "```"@ {
        lemma_fence_end(lines, i + 1);
    }
}

/// The code block starting at `idx`, with the index of its closing
/// fence (or the line count when it is unterminated): the content is
/// every line between the fences, verbatim.
pub open spec fn code_new_at(lines: Seq<Seq<char>>, idx: int) -> (Option<CodeBlockModel>, int) {
    match code_start_lang(trim_spec(lines[idx])) {
        None => (None, idx),
        Some(lang) => {
            let e = fence_end(lines, idx + 1);
            if idx + 1 <= e <= lines.len() {
                (Some(CodeBlockModel { lang, lines: lines.subrange(idx + 1, e) }), e)
            } else {
                (None, idx)
            }
        },
    }
}

/// The HTML of a code block: the lines joined by `<br/>`, wrapped in a
/// `<code>` tag carrying the language label.
pub open spec fn code_html(m: CodeBlockModel) -> Seq<char> {
    "<code class=\""@ + m.lang + "\">"@ + join_with(m.lines, "<br/>"@) + "</code>"@
}

/// A fenced code block: language label and verbatim content lines.
pub struct CodeBlock {
    lang: String,
    lines: Vec<String>,
}

impl View for CodeBlock {
    type V = CodeBlockModel;

    closed spec fn view(&self) -> CodeBlockModel {
        CodeBlockModel { lang: self.lang@, lines: lines_view(self.lines@) }
    }
}

impl CodeBlock {
    /// Recognizes a fenced code block beginning at `idx`: the trimmed
    /// line must start with three backticks and a language label; the
    /// content runs verbatim to the closing fence or the end of input.
    pub fn new(lines: &Vec<String>, idx: usize) -> (r: (Option<CodeBlock>, usize))
        requires
            idx < lines@.len(),
        ensures
            ({
                let s = code_new_at(lines_view(lines@), idx as int);
                match r.0 {
                    Some(cb) => s.0 == Some(cb@) && r.1 as int == s.1 && idx < r.1 + 1 && r.1
                        <= lines@.len(),
                    None => s.0 is None && r.1 == idx,
                }
            }),
    {
        let ghost lv = lines_view(lines@);
        let ll = lines.len();
        let t = trimmed_chars(lines[idx].as_str());
        if !(t.len() > 3) {
            return (None, idx);
        }
        if t[0] != '`' || t[1] != '`' || t[2] != '`' {
            return (None, idx);
        }
        let lang = string_of(&copy_range(&t, 3, t.len()));
        let mut e: usize = idx + 1;
        while e < ll && !is_fence(&lines[e])
            invariant
                idx + 1 <= e <= lines@.len(),
                ll == lines@.len(),
                lv == lines_view(lines@),
                lv.len() == lines@.len(),
                fence_end(lv, idx as int + 1) == fence_end(lv, e as int),
            decreases lines@.len() - e,
        {
            e += 1;
        }
        proof {
            assert(fence_end(lv, e as int) == e as int);
        }
        let mut content: Vec<String> = Vec::new();
        let mut k: usize = idx + 1;
        while k < e
            invariant
                idx + 1 <= k <= e <= lines@.len(),
                lv == lines_view(lines@),
                content@.len() == k - idx - 1,
                forall|j: int| 0 <= j < content@.len() ==> content@[j]@ == lv[idx + 1 + j],
            decreases e - k,
        {
            content.push(lines[k].clone());
            k += 1;
        }
        let cb = CodeBlock { lang, lines: content };
        proof {
            let s = code_new_at(lv, idx as int);
            assert(cb@.lines =~= s.0->0.lines);
        }
        (Some(cb), e)
    }

    /// Renders `<code class="{lang}">…</code>` with the content lines
    /// joined by `<br/>`.
    pub fn into_html(&self) -> (r: String)
        ensures
            r@ == code_html(self@),
    {
        let mut v: Vec<char> = Vec::new();
        append_str(&mut v, "<code class=\"");
        append_str(&mut v, self.lang.as_str());
        append_str(&mut v, "\">");
        let mut k: usize = 0;
        let ghost parts = self@.lines;
        proof {
            assert(v@ =~= "<code class=\""@ + self.lang@ + "\">"@ + join_with(
                parts.take(0),
                "<br/>"@,
            ));
        }
        while k < self.lines.len()
            invariant
                k <= self.lines@.len(),
                parts == lines_view(self.lines@),
                parts.len() == self.lines@.len(),
                v@ == "<code class=\""@ + self.lang@ + "\">"@ + join_with(
                    parts.take(k as int),
                    "<br/>"@,
                ),
            decreases self.lines@.len() - k,
        {
            if k > 0 {
                append_str(&mut v, "<br/>");
            }
            append_str(&mut v, self.lines[k].as_str());
            proof {
                lemma_join_push(parts.take(k as int), "<br/>"@, parts[k as int]);
                assert(parts.take(k as int).push(parts[k as int]) =~= parts.take(k as int + 1));
                assert(v@ =~= "<code class=\""@ + self.lang@ + "\">"@ + join_with(
                    parts.take(k as int + 1),
                    "<br/>"@,
                ));
            }
            k += 1;
        }
        append_str(&mut v, "</code>");
        proof {
            assert(parts.take(self.lines@.len() as int) =~= parts);
            assert(v@ =~= code_html(self@));
        }
        string_of(&v)
    }
}

/// Whether a line is exactly a closing fence of three backticks.
fn is_fence(l: &String) -> (r: bool)
    ensures
        r == (l@ == "```"@),
{
    proof {
        reveal_strlit("```");
    }
    let s = l.as_str();
    if s.unicode_len() != 3 {
        return false;
    }
    let r = s.get_char(0) == '`' && s.get_char(1) == '`' && s.get_char(2) == '`';
    proof {
        if r {
            assert(l@ =~= "```"@);
        }
    }
    r
}

// ---------------------------------------------------------------------
// Lists
// ---------------------------------------------------------------------

/// Ordered (`1.`) or unordered (`-`, `*`) list.
#[derive(Clone, Copy, PartialEq, Eq, Structural, Debug)]
pub enum ListType {
    Ordered,
    Unordered,
}

pub open spec fn is_digit(c: char) -> bool {
    48 <= c as u32 <= 57
}

/// Index just past the run of decimal digits starting at `i`.
pub open spec fn digit_run_end(t: Seq<char>, i: int) -> int
    decreases t.len() - i when 0 <= i
{
    if i >= t.len() {
        t.len() as int
    } else if is_digit(t[i]) {
        digit_run_end(t, i + 1)
    } else {
        i
    }
}

/// The list kind a trimmed line carries: `- ` or `* ` marks an
/// unordered item, a digit run followed by `.` an ordered one.
pub open spec fn marker_kind(t: Seq<char>) -> Option<ListType> {
    if t.len() >= 2 && t[0] == '-' && t[1] == ' ' {
        Some(ListType::Unordered)
    } else if t.len() >= 2 && t[0] == '*' && t[1] == ' ' {
        Some(ListType::Unordered)
    } else {
        let d = digit_run_end(t, 0);
        if 1 <= d && d < t.len() && t[d] == '.' {
            Some(ListType::Ordered)
        } else {
            None
        }
    }
}

/// The indentation of a raw line: its count of leading spaces.
pub open spec fn indent_of(l: Seq<char>) -> int {
    run_end(l, ' ', 0)
}

/// A masked item line with its leading marker removed and the
/// remainder trimmed; text without a marker is left unchanged.
pub open spec fn strip_marker(m: Seq<char>) -> Seq<char> {
    if m.len() >= 2 && m[0] == '-' && m[1] == ' ' {
        trim_spec(m.subrange(2, m.len() as int))
    } else if m.len() >= 2 && m[0] == '*' && m[1] == ' ' {
        trim_spec(m.subrange(2, m.len() as int))
    } else {
        let d = digit_run_end(m, 0);
        if 1 <= d && d < m.len() && m[d] == '.' {
            trim_spec(m.subrange(d + 1, m.len() as int))
        } else {
            m
        }
    }
}

/// The mathematical image of a `ListItem`.
pub struct ListItemModel {
    pub text: Seq<char>,
    pub tokens: Seq<TokenModel>,
    pub nested: Option<ListModel>,
}

/// The mathematical image of a `List`.
pub struct ListModel {
    pub kind: ListType,
    pub items: Seq<ListItemModel>,
}

/// The item a raw line yields: the trimmed line is tokenized and
/// masked, then the marker is stripped from the masked text.
pub open spec fn item_of_line(l: Seq<char>) -> ListItemModel {
    let t = trim_spec(l);
    let toks = scan_line(t);
    ListItemModel { text: strip_marker(mask_spec(t, toks)), tokens: toks, nested: None }
}

/// Index of the first non-blank line at or after `i`.
pub open spec fn skip_blank(lines: Seq<Seq<char>>, i: int) -> int
    decreases lines.len() - i when 0 <= i
{
    if i >= lines.len() {
        i
    } else if is_blank(lines[i]) {
        skip_blank(lines, i + 1)
    } else {
        i
    }
}

/// Hangs `sub` below the last item: it becomes the item's nested list,
/// or extends the nested list the item already owns.
pub open spec fn attach_nested(items: Seq<ListItemModel>, sub: ListModel) -> Seq<ListItemModel> {
    if items.len() == 0 {
        items
    } else {
        let last = items[items.len() - 1];
        let merged = match last.nested {
            None => ListItemModel { text: last.text, tokens: last.tokens, nested: Some(sub) },
            Some(inner) => ListItemModel {
                text: last.text,
                tokens: last.tokens,
                nested: Some(ListModel { kind: inner.kind, items: inner.items + sub.items }),
            },
        };
        items.update(items.len() - 1, merged)
    }
}

/// Consumes the run of a list at indentation `base` from line `i` on:
/// blank lines are skipped, lines at `base` become items, deeper lines
/// open a nested list under the last item, and a non-list line or a
/// dedent below `base` ends the run.
pub open spec fn parse_run(
    lines: Seq<Seq<char>>,
    i: int,
    base: int,
    items: Seq<ListItemModel>,
) -> (Seq<ListItemModel>, int)
    decreases lines.len() - i, 1int when 0 <= i
{
    if i >= lines.len() {
        (items, i)
    } else if is_blank(lines[i]) {
        parse_run(lines, i + 1, base, items)
    } else if marker_kind(trim_spec(lines[i])) is None {
        (items, i)
    } else if indent_of(lines[i]) < base {
        (items, i)
    } else if indent_of(lines[i]) == base {
        parse_run(lines, i + 1, base, items.push(item_of_line(lines[i])))
    } else {
        let r = parse_list_at(lines, i);
        let items2 = attach_nested(items, r.0);
        if i < r.1 <= lines.len() {
            parse_run(lines, r.1, base, items2)
        } else {
            (items2, r.1)
        }
    }
}

/// The list whose first item stands at `idx`: its kind and indentation
/// come from that line, and the run extends as `parse_run` says.
pub open spec fn parse_list_at(lines: Seq<Seq<char>>, idx: int) -> (ListModel, int)
    decreases lines.len() - idx, 0int when 0 <= idx < lines.len()
{
    let kind = match marker_kind(trim_spec(lines[idx])) {
        Some(k) => k,
        None => ListType::Ordered,
    };
    let base = indent_of(lines[idx]);
    let r = parse_run(lines, idx + 1, base, seq![item_of_line(lines[idx])]);
    (ListModel { kind, items: r.0 }, r.1)
}

pub proof fn lemma_parse_run_advances(
    lines: Seq<Seq<char>>,
    i: int,
    base: int,
    items: Seq<ListItemModel>,
)
    requires
        0 <= i,
    ensures
        ({
            let r = parse_run(lines, i, base, items);
            i <= r.1 && (i <= lines.len() ==> r.1 <= lines.len())
        }),
    decreases lines.len() - i, 1int,
{
    if i >= lines.len() {
    } else if is_blank(lines[i]) {
        lemma_parse_run_advances(lines, i + 1, base, items);
    } else if marker_kind(trim_spec(lines[i])) is None {
    } else if indent_of(lines[i]) < base {
    } else if indent_of(lines[i]) == base {
        lemma_parse_run_advances(lines, i + 1, base, items.push(item_of_line(lines[i])));
    } else {
        let r = parse_list_at(lines, i);
        lemma_parse_list_advances(lines, i);
        let items2 = attach_nested(items, r.0);
        if i < r.1 <= lines.len() {
            lemma_parse_run_advances(lines, r.1, base, items2);
        }
    }
}

pub proof fn lemma_parse_list_advances(lines: Seq<Seq<char>>, idx: int)
    requires
        0 <= idx < lines.len(),
    ensures
        ({
            let r = parse_list_at(lines, idx);
            idx < r.1 <= lines.len()
        }),
    decreases lines.len() - idx, 0int,
{
    lemma_parse_run_advances(
        lines,
        idx + 1,
        indent_of(lines[idx]),
        seq![item_of_line(lines[idx])],
    );
}

/// The list starting at or just after `idx`: leading blank lines are
/// skipped; `None` when the first non-blank line is no list item.
pub open spec fn list_new_at(lines: Seq<Seq<char>>, idx: int) -> (Option<ListModel>, int) {
    let j = skip_blank(lines, idx);
    if j < lines.len() && marker_kind(trim_spec(lines[j])) is Some {
        let r = parse_list_at(lines, j);
        (Some(r.0), r.1)
    } else {
        (None, j)
    }
}

/// One item of a list, owning an optional nested list.
pub struct ListItem {
    text: String,
    inline_tokens: Vec<InlineToken>,
    nested: Option<Box<List>>,
}

/// A list block: its kind and its items.
pub struct List {
    list_type: ListType,
    items: Vec<ListItem>,
}

/// The model of one executable item.
pub closed spec fn item_model(it: ListItem) -> ListItemModel
    decreases it,
{
    ListItemModel {
        text: it.text@,
        tokens: views_of(it.inline_tokens@),
        nested: match it.nested {
            Some(b) => Some(list_model(*b)),
            None => None,
        },
    }
}

/// The models of a sequence of executable items.
pub open spec fn items_models(s: Seq<ListItem>) -> Seq<ListItemModel>
    decreases s,
{
    Seq::new(
        s.len(),
        |i: int|
            if 0 <= i < s.len() {
                item_model(s[i])
            } else {
                vstd::pervasive::arbitrary()
            },
    )
}

/// The model of an executable list.
pub closed spec fn list_model(l: List) -> ListModel
    decreases l,
{
    ListModel { kind: l.list_type, items: items_models(l.items@) }
}

impl View for ListItem {
    type V = ListItemModel;

    open spec fn view(&self) -> ListItemModel {
        item_model(*self)
    }
}

impl View for List {
    type V = ListModel;

    open spec fn view(&self) -> ListModel {
        list_model(*self)
    }
}

/// The HTML of one list item: its unmasked text, then its nested
/// list's HTML if it owns one, wrapped in `<li>` tags.
pub open spec fn item_html(m: ListItemModel) -> Seq<char>
    decreases m,
{
    "<li>"@ + unmask_spec(m.text, m.tokens) + (match m.nested {
        Some(n) => list_html(n),
        None => Seq::<char>::empty(),
    }) + "</li>"@
}

/// The HTML of each item of a list, in order.
pub open spec fn items_html_seq(items: Seq<ListItemModel>) -> Seq<Seq<char>>
    decreases items,
{
    Seq::new(
        items.len(),
        |i: int|
            if 0 <= i < items.len() {
                item_html(items[i])
            } else {
                vstd::pervasive::arbitrary()
            },
    )
}

/// The HTML of a list: its items joined by newlines, wrapped in
/// `<ul>` or `<ol>` tags as its kind says.
pub open spec fn list_html(m: ListModel) -> Seq<char>
    decreases m,
{
    let tag = if m.kind == ListType::Unordered {
        "ul"@
    } else {
        "ol"@
    };
    "<"@ + tag + ">"@ + join_with(items_html_seq(m.items), "\n"@) + "</"@ + tag + ">"@
}

impl ListItem {
    /// Builds one item from its raw line: trim, tokenize, mask, strip
    /// the marker.
    pub fn new(line: &str) -> (r: ListItem)
        ensures
            r@ == item_of_line(line@),
    {
        let t = trimmed_chars(line);
        let txt = string_of(&t);
        let tokens = InlineToken::extract(&txt);
        let masked = InlineToken::mask_tokens(txt, &tokens);
        let text = strip_marker_exec(&masked);
        ListItem { text, inline_tokens: tokens, nested: None }
    }

    /// Renders `<li>…</li>`, the nested list's HTML included.
    pub fn into_html(&self) -> (r: String)
        ensures
            r@ == item_html(self@),
        decreases *self,
    {
        let mut v: Vec<char> = Vec::new();
        append_str(&mut v, "<li>");
        let body = InlineToken::into_html(self.text.as_str(), &self.inline_tokens);
        append_str(&mut v, body.as_str());
        match &self.nested {
            Some(b) => {
                let nh = b.into_html();
                append_str(&mut v, nh.as_str());
            },
            None => {},
        }
        append_str(&mut v, "</li>");
        proof {
            assert(v@ =~= item_html(self@));
        }
        string_of(&v)
    }
}

impl List {
    /// Recognizes a list run at or just after `idx`: leading blank
    /// lines are skipped, then the first line's marker decides the
    /// kind and its indentation the nesting base.
    pub fn new(lines: &Vec<String>, idx: usize) -> (r: (Option<List>, usize))
        requires
            idx <= lines@.len(),
        ensures
            ({
                let s = list_new_at(lines_view(lines@), idx as int);
                &&& r.1 as int == s.1
                &&& match r.0 {
                    Some(l) => s.0 == Some(l@) && idx < r.1 <= lines@.len(),
                    None => s.0 is None && idx <= r.1 <= lines@.len(),
                }
            }),
    {
        let ghost lv = lines_view(lines@);
        let mut j: usize = idx;
        while j < lines.len() && is_blank_exec(&lines[j])
            invariant
                idx <= j <= lines@.len(),
                lv == lines_view(lines@),
                skip_blank(lv, idx as int) == skip_blank(lv, j as int),
            decreases lines@.len() - j,
        {
            j += 1;
        }
        proof {
            assert(skip_blank(lv, j as int) == j as int);
        }
        if j >= lines.len() {
            return (None, j);
        }
        let t = trimmed_chars(lines[j].as_str());
        match marker_kind_vec(&t) {
            None => (None, j),
            Some(_) => {
                let r = Self::parse_at(lines, j);
                (Some(r.0), r.1)
            },
        }
    }

    /// Parses the list whose first item stands at `idx`.
    fn parse_at(lines: &Vec<String>, idx: usize) -> (r: (List, usize))
        requires
            idx < lines@.len(),
            marker_kind(trim_spec(lines_view(lines@)[idx as int])) is Some,
        ensures
            ({
                let s = parse_list_at(lines_view(lines@), idx as int);
                s.0 == r.0@ && r.1 as int == s.1 && idx < r.1 <= lines@.len()
            }),
        decreases lines@.len() - idx,
    {
        let ghost lv = lines_view(lines@);
        let ll = lines.len();
        let t = trimmed_chars(lines[idx].as_str());
        let kind = match marker_kind_vec(&t) {
            Some(k) => k,
            None => ListType::Ordered,
        };
        let lc = chars_of(lines[idx].as_str());
        let base = run_end_vec(&lc, ' ', 0);
        let first = ListItem::new(lines[idx].as_str());
        let mut items: Vec<ListItem> = Vec::new();
        items.push(first);
        let mut i: usize = idx + 1;
        proof {
            assert(items_models(items@) =~= seq![item_of_line(lv[idx as int])]);
        }
        loop
            invariant
                idx < i <= lines@.len(),
                lv == lines_view(lines@),
                ll == lines@.len(),
                items@.len() >= 1,
                parse_run(lv, idx as int + 1, base as int, seq![item_of_line(lv[idx as int])])
                    == parse_run(lv, i as int, base as int, items_models(items@)),
            ensures
                parse_run(lv, idx as int + 1, base as int, seq![item_of_line(lv[idx as int])])
                    == (items_models(items@), i as int),
                idx < i <= lines@.len(),
            decreases lines@.len() - i,
        {
            if i >= ll {
                break;
            }
            if is_blank_exec(&lines[i]) {
                i += 1;
                continue;
            }
            let ti = trimmed_chars(lines[i].as_str());
            if marker_kind_vec(&ti).is_none() {
                break;
            }
            let lci = chars_of(lines[i].as_str());
            let ind = run_end_vec(&lci, ' ', 0);
            if ind < base {
                break;
            } else if ind == base {
                let it = ListItem::new(lines[i].as_str());
                proof {
                    assert(items_models(items@.push(it)) =~= items_models(items@).push(
                        item_of_line(lv[i as int]),
                    ));
                }
                items.push(it);
                i += 1;
            } else {
                let sub = Self::parse_at(lines, i);
                let ni = sub.1;
                let ghost old_models = items_models(items@);
                let ghost sub_model = list_model(sub.0);
                let last = items.pop().unwrap();
                let ListItem { text, inline_tokens, nested } = last;
                let new_nested = match nested {
                    None => Some(Box::new(sub.0)),
                    Some(b) => {
                        let ghost inner0 = *b;
                        let ghost taken0 = sub.0;
                        let mut inner = *b;
                        let mut taken = sub.0;
                        inner.items.append(&mut taken.items);
                        proof {
                            assert(items_models(inner.items@) =~= items_models(inner0.items@)
                                + items_models(taken0.items@));
                        }
                        Some(Box::new(inner))
                    },
                };
                let it2 = ListItem { text, inline_tokens, nested: new_nested };
                proof {
                    assert(items_models(items@.push(it2)) =~~= attach_nested(
                        old_models,
                        sub_model,
                    ));
                }
                items.push(it2);
                i = ni;
            }
        }
        let out = List { list_type: kind, items };
        proof {
            assert(list_model(out).items == items_models(out.items@));
        }
        (out, i)
    }

    /// Renders `<ul>…</ul>` or `<ol>…</ol>` with one `<li>` per item,
    /// joined by newlines.
    pub fn into_html(&self) -> (r: String)
        ensures
            r@ == list_html(self@),
        decreases *self,
    {
        let mut v: Vec<char> = Vec::new();
        let tag: &str = if self.list_type == ListType::Unordered {
            "ul"
        } else {
            "ol"
        };
        append_str(&mut v, "<");
        append_str(&mut v, tag);
        append_str(&mut v, ">");
        let ghost parts = items_html_seq(self@.items);
        let mut k: usize = 0;
        proof {
            assert(v@ =~= "<"@ + tag@ + ">"@ + join_with(parts.take(0), "\n"@));
        }
        while k < self.items.len()
            invariant
                k <= self.items@.len(),
                parts == items_html_seq(self@.items),
                self@.items.len() == self.items@.len(),
                self@ == list_model(*self),
                v@ == "<"@ + tag@ + ">"@ + join_with(parts.take(k as int), "\n"@),
                tag@ == (if self@.kind == ListType::Unordered {
                    "ul"@
                } else {
                    "ol"@
                }),
            decreases self.items@.len() - k,
        {
            if k > 0 {
                append_str(&mut v, "\n");
            }
            proof {
                assert(decreases_to!(*self => self.items@[k as int]));
            }
            let h = self.items[k].into_html();
            append_str(&mut v, h.as_str());
            proof {
                lemma_join_push(parts.take(k as int), "\n"@, parts[k as int]);
                assert(parts.take(k as int).push(parts[k as int]) =~= parts.take(k as int + 1));
                assert(v@ =~= "<"@ + tag@ + ">"@ + join_with(parts.take(k as int + 1), "\n"@));
            }
            k += 1;
        }
        append_str(&mut v, "</");
        append_str(&mut v, tag);
        append_str(&mut v, ">");
        proof {
            assert(parts.take(self.items@.len() as int) =~= parts);
            assert(v@ =~= list_html(self@));
        }
        string_of(&v)
    }
}

/// Whether a line is blank after trimming.
pub fn is_blank_exec(l: &String) -> (r: bool)
    ensures
        r == is_blank(l@),
{
    let t = trimmed_chars(l.as_str());
    t.len() == 0
}

/// The list kind a trimmed line carries.
fn marker_kind_vec(t: &Vec<char>) -> (r: Option<ListType>)
    ensures
        r == marker_kind(t@),
{
    if t.len() >= 2 && t[0] == '-' && t[1] == ' ' {
        return Some(ListType::Unordered);
    }
    if t.len() >= 2 && t[0] == '*' && t[1] == ' ' {
        return Some(ListType::Unordered);
    }
    let d = digit_run_end_vec(t, 0);
    if 1 <= d && d < t.len() && t[d] == '.' {
        Some(ListType::Ordered)
    } else {
        None
    }
}

fn is_digit_exec(c: char) -> (r: bool)
    ensures
        r == is_digit(c),
{
    let u = c as u32;
    48 <= u && u <= 57
}

/// Index just past the run of decimal digits starting at `from`.
fn digit_run_end_vec(t: &Vec<char>, from: usize) -> (r: usize)
    requires
        from <= t@.len(),
    ensures
        r as int == digit_run_end(t@, from as int),
        from <= r <= t@.len(),
{
    let mut i: usize = from;
    while i < t.len() && is_digit_exec(t[i])
        invariant
            from <= i <= t@.len(),
            digit_run_end(t@, from as int) == digit_run_end(t@, i as int),
        decreases t@.len() - i,
    {
        i += 1;
    }
    i
}

/// A masked item line with its leading marker removed.
fn strip_marker_exec(m: &String) -> (r: String)
    ensures
        r@ == strip_marker(m@),
{
    let mv = chars_of(m.as_str());
    if mv.len() >= 2 && mv[0] == '-' && mv[1] == ' ' {
        return string_of(&trim_vec(&copy_range(&mv, 2, mv.len())));
    }
    if mv.len() >= 2 && mv[0] == '*' && mv[1] == ' ' {
        return string_of(&trim_vec(&copy_range(&mv, 2, mv.len())));
    }
    let d = digit_run_end_vec(&mv, 0);
    if 1 <= d && d < mv.len() && mv[d] == '.' {
        string_of(&trim_vec(&copy_range(&mv, d + 1, mv.len())))
    } else {
        m.clone()
    }
}

// ---------------------------------------------------------------------
// Blank lines
// ---------------------------------------------------------------------

/// A blank-line marker: only a scanning signal, never rendered.
pub struct LineBreak;

impl LineBreak {
    /// Recognizes a line that is empty after trimming.
    pub fn new(line: &str) -> (r: Option<LineBreak>)
        ensures
            r is Some <==> is_blank(line@),
    {
        let t = trimmed_chars(line);
        if t.len() == 0 {
            Some(LineBreak)
        } else {
            None
        }
    }

    /// The HTML of an explicit line break.
    pub fn into_html(&self) -> (r: String)
        ensures
            r@ == "<br/>"@,
    {
        let mut v: Vec<char> = Vec::new();
        append_str(&mut v, "<br/>");
        proof {
            assert(Seq::<char>::empty() + "<br/>"@ =~= "<br/>"@);
        }
        string_of(&v)
    }
}

} // verus!
