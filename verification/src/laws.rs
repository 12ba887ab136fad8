//! Whole-library laws: properties that relate several functions, each
//! proved from the contracts and definitions in the other modules.

use vstd::prelude::*;

verus! {

use crate::text::{
    trim_spec, is_blank, replace_first, replace_all, replace_all_from, placeholder, matches_at,
    find_sub_from, lemma_placeholder_len, lemma_find_sub_exactly_at, lemma_find_sub_nowhere,
    dec_digits, digit_char,
};
use crate::tokens::{
    scan_line, scan_from, mask_spec, unmask_spec, raw_of, token_html, mask_from, unmask_from,
    token_at, next_match, lemma_next_match, lemma_scan_empty, lemma_raw_at,
    lemma_raw_occurrence_matches,
};
use crate::blocks::{
    heading_matches, marker_kind, code_start_lang, code_new_at, fence_end, lemma_fence_end,
    parse_list_at, parse_run, indent_of, item_of_line, lemma_parse_list_advances,
    lemma_quote_run_end, quote_new_at,
};
use crate::documents::parse_doc;

/// Masking with an empty token set and then unmasking returns the
/// text unchanged: when a line holds no inline span, the round trip
/// through the masker leaves it intact.
pub proof fn lemma_mask_round_trip_no_tokens(text: Seq<char>)
    requires
        scan_line(text).len() == 0,
    ensures
        unmask_spec(mask_spec(text, scan_line(text)), scan_line(text)) == text,
{
}

/// When a whole line is exactly one inline span, masking it and
/// unmasking it again renders exactly that span's HTML: the
/// placeholder that the masker writes is consumed in full and nothing
/// leaks into the output.
pub proof fn lemma_mask_round_trip_whole_line(text: Seq<char>)
    requires
        scan_line(text).len() == 1,
        raw_of(scan_line(text)[0]) == text,
    ensures
        unmask_spec(mask_spec(text, scan_line(text)), scan_line(text)) == token_html(
            scan_line(text)[0],
        ),
{
    let toks = scan_line(text);
    let t = toks[0];
    let ph = placeholder(1);
    let html = token_html(t);
    lemma_placeholder_len(1);
    // masking: the raw is the whole line, so the first occurrence is at 0
    assert(text.subrange(0, text.len() as int) =~= text);
    assert(matches_at(text, text, 0));
    assert(find_sub_from(text, text, 0) == Some(0int));
    assert(replace_first(text, text, ph) =~= ph);
    assert(mask_from(text, toks, 0) == mask_from(ph, toks, 1));
    assert(mask_from(ph, toks, 1) == ph);
    // unmasking: the masked line is exactly the placeholder
    assert(ph.subrange(0, ph.len() as int) =~= ph);
    assert(matches_at(ph, ph, 0));
    assert(find_sub_from(ph, ph, 0) == Some(0int));
    assert(find_sub_from(ph, ph, ph.len() as int) is None);
    assert(replace_all_from(ph, ph, html, ph.len() as int) =~= Seq::<char>::empty());
    assert(replace_all(ph, ph, html) == ph.subrange(0, 0) + html + replace_all_from(
        ph,
        ph,
        html,
        ph.len() as int,
    ));
    assert(ph.subrange(0, 0) + html + Seq::<char>::empty() =~= html);
    assert(unmask_from(ph, toks, 0) == unmask_from(replace_all(ph, ph, html), toks, 1));
    assert(unmask_from(html, toks, 1) == html);
}

/// When a line holds exactly one inline span, masking it and
/// unmasking it again renders that span's HTML exactly in place: the
/// text around the span is untouched and no placeholder leaks into
/// the output.  The one proviso is that the line itself must not
/// already contain the placeholder `<$1>`: such a line collides with
/// the masking key, and the round trip is not faithful on it.
pub proof fn lemma_mask_round_trip_one_token(text: Seq<char>)
    requires
        scan_line(text).len() == 1,
        forall|q: int| !matches_at(text, placeholder(1), q),
    ensures
        ({
            let t = scan_line(text)[0];
            let p = next_match(text, 0);
            unmask_spec(mask_spec(text, scan_line(text)), scan_line(text)) == text.subrange(0, p)
                + token_html(t) + text.subrange(
                p + raw_of(t).len(),
                text.len() as int,
            )
        }),
{
    let toks = scan_line(text);
    let t = toks[0];
    let raw = raw_of(t);
    let l = raw.len() as int;
    let p = next_match(text, 0);
    lemma_next_match(text, 0);
    assert(scan_from(text, p).len() == 1);
    assert(p < text.len());
    let t0 = token_at(text, p)->0;
    lemma_raw_at(text, p);
    let l0 = raw_of(t0).len() as int;
    assert(scan_from(text, p) == seq![t0] + scan_from(text, p + l0));
    assert(t0 == t);
    assert(scan_from(text, p + l0).len() == 0);
    lemma_scan_empty(text, p + l0);
    assert(raw == text.subrange(p, p + l));
    // masking replaces the raw exactly at its match position
    assert(matches_at(text, raw, p));
    assert forall|q2: int| 0 <= q2 < p implies !matches_at(text, raw, q2) by {
        if matches_at(text, raw, q2) {
            lemma_raw_occurrence_matches(text, p, q2);
        }
    }
    lemma_find_sub_exactly_at(text, raw, 0, p);
    let ph = placeholder(1);
    let m = text.subrange(0, p) + ph + text.subrange(p + l, text.len() as int);
    assert(replace_first(text, raw, ph) == m);
    assert(mask_from(text, toks, 0) == mask_from(m, toks, 1));
    assert(mask_spec(text, toks) == m);
    // the placeholder's four characters
    lemma_placeholder_len(1);
    let pl = ph.len() as int;
    assert(dec_digits(1) =~= seq![digit_char(1)]);
    assert(ph =~= seq!['<', '$', '1', '>']);
    assert(pl == 4);
    // the masked line holds the placeholder exactly once, at p
    assert(m.subrange(p, p + pl) =~= ph);
    assert(matches_at(m, ph, p));
    assert forall|y: int| 0 <= y < p implies !matches_at(m, ph, y) by {
        if matches_at(m, ph, y) {
            if y + pl <= p {
                // the same occurrence would stand in the unmasked text
                assert(text.subrange(y, y + pl) =~= m.subrange(y, y + pl));
                assert(matches_at(text, ph, y));
            } else {
                // it would overlap the placeholder, whose opening `<`
                // cannot be one of its later characters
                let r = p - y;
                assert(m.subrange(y, y + pl)[r] == m[y + r]);
                assert(m[p] == ph[0]);
                assert(ph[r] != '<');
            }
        }
    }
    assert forall|y: int| p + pl <= y implies !matches_at(m, ph, y) by {
        if matches_at(m, ph, y) {
            let y2 = y + l - pl;
            assert(text.subrange(y2, y2 + pl) =~= m.subrange(y, y + pl));
            assert(matches_at(text, ph, y2));
        }
    }
    lemma_find_sub_exactly_at(m, ph, 0, p);
    lemma_find_sub_nowhere(m, ph, p + pl);
    // unmasking substitutes the HTML exactly there
    let html = token_html(t);
    assert(replace_all_from(m, ph, html, p + pl) == m.subrange(p + pl, m.len() as int));
    assert(replace_all(m, ph, html) == m.subrange(0, p) + html + m.subrange(
        p + pl,
        m.len() as int,
    ));
    assert(m.subrange(0, p) =~= text.subrange(0, p));
    assert(m.subrange(p + pl, m.len() as int) =~= text.subrange(p + l, text.len() as int));
    assert(unmask_from(m, toks, 0) == unmask_from(replace_all(m, ph, html), toks, 1));
    assert(unmask_from(replace_all(m, ph, html), toks, 1) == replace_all(m, ph, html));
}

/// Every content line of a recognized code block is a line of the
/// input, verbatim: nothing inside a fenced block is inline-tokenized
/// or otherwise rewritten.
pub proof fn lemma_code_block_verbatim(lines: Seq<Seq<char>>, idx: int)
    requires
        0 <= idx < lines.len(),
        code_start_lang(trim_spec(lines[idx])) is Some,
    ensures
        ({
            let r = code_new_at(lines, idx);
            &&& r.0 is Some
            &&& forall|j: int|
                0 <= j < r.0->0.lines.len() ==> r.0->0.lines[j] == lines[idx + 1 + j]
        }),
{
    lemma_fence_end(lines, idx + 1);
}

/// A fence with no closing fence consumes every remaining line as
/// code content, without error.
pub proof fn lemma_unterminated_code_runs_to_end(lines: Seq<Seq<char>>, idx: int)
    requires
        0 <= idx < lines.len(),
        code_start_lang(trim_spec(lines[idx])) is Some,
        forall|j: int| idx < j < lines.len() ==> lines[j] != "```"@,
    ensures
        ({
            let r = code_new_at(lines, idx);
            &&& r.0 is Some
            &&& r.1 == lines.len()
            &&& r.0->0.lines == lines.subrange(idx + 1, lines.len() as int)
        }),
{
    lemma_fence_end_absent(lines, idx + 1);
}

proof fn lemma_fence_end_absent(lines: Seq<Seq<char>>, i: int)
    requires
        0 <= i <= lines.len(),
        forall|j: int| i <= j < lines.len() ==> lines[j] != "```"@,
    ensures
        fence_end(lines, i) == lines.len(),
    decreases lines.len() - i,
{
    if i < lines.len() {
        lemma_fence_end_absent(lines, i + 1);
    }
}

/// Two list-item lines of the same indentation separated by a single
/// blank line still form one list of two items: a blank line inside a
/// list run does not terminate it.
pub proof fn lemma_blank_line_keeps_list(l1: Seq<char>, b: Seq<char>, l2: Seq<char>)
    requires
        marker_kind(trim_spec(l1)) is Some,
        marker_kind(trim_spec(l2)) is Some,
        is_blank(b),
        indent_of(l2) == indent_of(l1),
    ensures
        ({
            let r = parse_list_at(seq![l1, b, l2], 0);
            r.0.items.len() == 2 && r.1 == 3
        }),
{
    let lines = seq![l1, b, l2];
    let base = indent_of(l1);
    let items1 = seq![item_of_line(l1)];
    assert(lines[0] == l1 && lines[1] == b && lines[2] == l2);
    assert(parse_run(lines, 1, base, items1) == parse_run(lines, 2, base, items1));
    assert(parse_run(lines, 2, base, items1) == parse_run(
        lines,
        3,
        base,
        items1.push(item_of_line(l2)),
    ));
    assert(parse_run(lines, 3, base, items1.push(item_of_line(l2))) == (
        items1.push(item_of_line(l2)),
        3int,
    ));
}

/// The tokenizer is total: a one-line document always yields exactly
/// one node when the line is non-blank — any line that no other
/// recognizer accepts falls back to a paragraph — and none when it is
/// blank.
pub proof fn lemma_single_line_totality(l: Seq<char>)
    ensures
        is_blank(l) ==> parse_doc(seq![l], 0).len() == 0,
        !is_blank(l) ==> parse_doc(seq![l], 0).len() == 1,
{
    let lines = seq![l];
    assert(lines[0] == l);
    assert(parse_doc(lines, 1).len() == 0);
    if is_blank(l) {
    } else if heading_matches(trim_spec(l)) {
    } else if marker_kind(trim_spec(l)) is Some {
        lemma_parse_list_advances(lines, 0);
        let r = parse_list_at(lines, 0);
        assert(r.1 == 1);
    } else if code_start_lang(trim_spec(l)) is Some {
        lemma_fence_end(lines, 1);
        let r = code_new_at(lines, 0);
        assert(r.0 is Some);
    } else if trim_spec(l).len() > 0 && trim_spec(l)[0] == '>' {
        lemma_quote_run_end(lines, 1);
        let r = quote_new_at(lines, 0);
        assert(r.0 is Some && r.1 == 1);
    } else {
    }
}

} // verus!
