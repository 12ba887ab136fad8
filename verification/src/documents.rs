//! One parsed markdown document: line splitting, the block tokenizer
//! that drives the recognizers, and the document renderer.

use vstd::prelude::*;

verus! {

use crate::text::{
    find_char_from, trim_spec, is_blank, join_with, lemma_join_push,
};
use crate::text::{chars_of, string_of, copy_range, append_str, find_char_vec};
use crate::blocks::{
    Heading, Paragraph, List, CodeBlock, Quote, lines_view, heading_matches, heading_model_of,
    marker_kind, parse_list_at, code_start_lang, code_new_at, lemma_fence_end, quote_new_at,
    paragraph_model_of, is_blank_exec, skip_blank,
};
use crate::node::{Node, NodeModel, node_html};

// ---------------------------------------------------------------------
// Line splitting
// ---------------------------------------------------------------------

/// A line with one trailing carriage return removed, so that input
/// with carriage-return-terminated lines yields no spurious content.
pub open spec fn strip_cr(l: Seq<char>) -> Seq<char> {
    if l.len() > 0 && l[l.len() - 1] == '\r' {
        l.subrange(0, l.len() - 1)
    } else {
        l
    }
}

/// The lines of a text: split on `\n`, each stripped of one trailing
/// carriage return.
pub open spec fn split_lines_spec(s: Seq<char>) -> Seq<Seq<char>>
    decreases s.len(),
{
    match find_char_from(s, '\n', 0) {
        None => seq![strip_cr(s)],
        Some(i) => if 0 <= i < s.len() {
            seq![strip_cr(s.subrange(0, i))] + split_lines_spec(
                s.subrange(i + 1, s.len() as int),
            )
        } else {
            seq![strip_cr(s)]
        },
    }
}

/// A copy of `v` with one trailing carriage return removed.
fn strip_cr_vec(v: &Vec<char>) -> (r: Vec<char>)
    ensures
        r@ == strip_cr(v@),
{
    if v.len() > 0 && v[v.len() - 1] == '\r' {
        copy_range(v, 0, v.len() - 1)
    } else {
        copy_range(v, 0, v.len())
    }
}

fn split_lines_vec(s: &Vec<char>) -> (r: Vec<String>)
    ensures
        lines_view(r@) == split_lines_spec(s@),
    decreases s@.len(),
{
    match find_char_vec(s, '\n', 0) {
        None => {
            let mut out: Vec<String> = Vec::new();
            out.push(string_of(&strip_cr_vec(s)));
            proof {
                assert(lines_view(out@) =~= split_lines_spec(s@));
            }
            out
        },
        Some(i) => {
            let sl = s.len();
            let head = copy_range(s, 0, i);
            let rest = copy_range(s, i + 1, sl);
            let mut tail = split_lines_vec(&rest);
            let mut out: Vec<String> = Vec::new();
            out.push(string_of(&strip_cr_vec(&head)));
            out.append(&mut tail);
            proof {
                assert(lines_view(out@) =~= seq![strip_cr(s@.subrange(0, i as int))]
                    + split_lines_spec(rest@));
            }
            out
        },
    }
}

/// Splits a text into its lines, tolerating CRLF line endings.
pub fn split_lines(text: &str) -> (r: Vec<String>)
    ensures
        lines_view(r@) == split_lines_spec(text@),
{
    let cs = chars_of(text);
    split_lines_vec(&cs)
}

// ---------------------------------------------------------------------
// The block tokenizer
// ---------------------------------------------------------------------

/// The nodes of the document from line `i` on.  At each position the
/// recognizers are tried in a fixed order — blank line, heading, list,
/// code block, quote — and any line that matches none of them becomes
/// a one-line paragraph, so the tokenizer is total over its input.
pub open spec fn parse_doc(lines: Seq<Seq<char>>, i: int) -> Seq<NodeModel>
    decreases lines.len() - i when 0 <= i
{
    if i >= lines.len() {
        Seq::empty()
    } else if is_blank(lines[i]) {
        parse_doc(lines, i + 1)
    } else if heading_matches(trim_spec(lines[i])) {
        seq![NodeModel::Heading(heading_model_of(trim_spec(lines[i])))] + parse_doc(lines, i + 1)
    } else if marker_kind(trim_spec(lines[i])) is Some {
        let r = parse_list_at(lines, i);
        if i < r.1 <= lines.len() {
            seq![NodeModel::List(r.0)] + parse_doc(lines, r.1)
        } else {
            seq![NodeModel::List(r.0)]
        }
    } else if code_start_lang(trim_spec(lines[i])) is Some {
        let r = code_new_at(lines, i);
        match r.0 {
            Some(cb) => if i <= r.1 && r.1 < lines.len() {
                seq![NodeModel::CodeBlock(cb)] + parse_doc(lines, r.1 + 1)
            } else {
                seq![NodeModel::CodeBlock(cb)]
            },
            None => Seq::empty(),
        }
    } else if trim_spec(lines[i]).len() > 0 && trim_spec(lines[i])[0] == '>' {
        let r = quote_new_at(lines, i);
        match r.0 {
            Some(q) => if i < r.1 <= lines.len() {
                seq![NodeModel::Quote(q)] + parse_doc(lines, r.1)
            } else {
                seq![NodeModel::Quote(q)]
            },
            None => Seq::empty(),
        }
    } else {
        seq![NodeModel::Paragraph(paragraph_model_of(lines[i]))] + parse_doc(lines, i + 1)
    }
}

/// The views of a sequence of nodes.
pub open spec fn nodes_view(ns: Seq<Node>) -> Seq<NodeModel> {
    ns.map_values(|n: Node| n@)
}

/// One parsed markdown file: its block nodes in document order.
pub struct Document {
    nodes: Vec<Node>,
}

impl View for Document {
    type V = Seq<NodeModel>;

    closed spec fn view(&self) -> Seq<NodeModel> {
        nodes_view(self.nodes@)
    }
}

/// The HTML fragment of a document: its nodes' HTML joined by
/// newlines.
pub open spec fn doc_html(ms: Seq<NodeModel>) -> Seq<char> {
    join_with(Seq::new(ms.len(), |i: int| node_html(ms[i])), "\n"@)
}

impl Document {
    /// Parses a whole markdown text into its block nodes.
    pub fn from_text(text: &str) -> (doc: Document)
        ensures
            doc@ == parse_doc(split_lines_spec(text@), 0),
    {
        let lines = split_lines(text);
        let ghost lv = lines_view(lines@);
        let mut nodes: Vec<Node> = Vec::new();
        let mut i: usize = 0;
        proof {
            assert(nodes_view(nodes@) + parse_doc(lv, 0) =~= parse_doc(lv, 0));
        }
        while i < lines.len()
            invariant
                lv == lines_view(lines@),
                parse_doc(lv, 0) == nodes_view(nodes@) + parse_doc(lv, i as int),
            decreases lines@.len() - i,
        {
            let ghost old_nodes = nodes@;
            let ghost i0 = i as int;
            if is_blank_exec(&lines[i]) {
                proof {
                    assert(parse_doc(lv, i0) == parse_doc(lv, i0 + 1));
                }
                i += 1;
                continue;
            }
            match Heading::new(lines[i].as_str()) {
                Some(h) => {
                    let ghost node = NodeModel::Heading(heading_model_of(trim_spec(lv[i0])));
                    nodes.push(Node::Heading(h));
                    proof {
                        lemma_tokenizer_step(old_nodes, nodes@, node, lv, i0, i0 + 1);
                    }
                    i += 1;
                    continue;
                },
                None => {},
            }
            let lr = List::new(&lines, i);
            match lr.0 {
                Some(l) => {
                    let n = lr.1;
                    let ghost node = NodeModel::List(l@);
                    proof {
                        assert(skip_blank(lv, i0) == i0);
                    }
                    nodes.push(Node::List(l));
                    proof {
                        lemma_tokenizer_step(old_nodes, nodes@, node, lv, i0, n as int);
                    }
                    i = n;
                    continue;
                },
                None => {
                    proof {
                        assert(skip_blank(lv, i0) == i0);
                        assert(marker_kind(trim_spec(lv[i0])) is None);
                    }
                },
            }
            let cr = CodeBlock::new(&lines, i);
            match cr.0 {
                Some(cb) => {
                    let e = cr.1;
                    let ghost node = NodeModel::CodeBlock(cb@);
                    nodes.push(Node::CodeBlock(cb));
                    if e >= lines.len() {
                        proof {
                            assert(parse_doc(lv, i0) == seq![node]);
                            assert(seq![node] + parse_doc(lv, lv.len() as int) =~= seq![node]);
                            lemma_tokenizer_step(old_nodes, nodes@, node, lv, i0, lv.len() as int);
                        }
                        i = lines.len();
                    } else {
                        proof {
                            lemma_tokenizer_step(old_nodes, nodes@, node, lv, i0, e as int + 1);
                        }
                        i = e + 1;
                    }
                    continue;
                },
                None => {
                    proof {
                        if code_start_lang(trim_spec(lv[i0])) is Some {
                            lemma_fence_end(lv, i0 + 1);
                            assert(false);
                        }
                    }
                },
            }
            let qr = Quote::new(&lines, i);
            match qr.0 {
                Some(q) => {
                    let e = qr.1;
                    let ghost node = NodeModel::Quote(q@);
                    nodes.push(Node::Quote(q));
                    proof {
                        lemma_tokenizer_step(old_nodes, nodes@, node, lv, i0, e as int);
                    }
                    i = e;
                    continue;
                },
                None => {
                    proof {
                        if trim_spec(lv[i0]).len() > 0 && trim_spec(lv[i0])[0] == '>' {
                            crate::blocks::lemma_quote_run_end(lv, i0 + 1);
                            assert(false);
                        }
                    }
                },
            }
            match Paragraph::new(lines[i].as_str()) {
                Some(p) => {
                    let ghost node = NodeModel::Paragraph(paragraph_model_of(lv[i0]));
                    nodes.push(Node::Paragraph(p));
                    proof {
                        lemma_tokenizer_step(old_nodes, nodes@, node, lv, i0, i0 + 1);
                    }
                    i += 1;
                },
                None => {
                    proof {
                        assert(false);
                    }
                },
            }
        }
        proof {
            assert(nodes_view(nodes@) + parse_doc(lv, i as int) =~= nodes_view(nodes@));
        }
        Document { nodes }
    }

    /// Renders the document: its nodes' HTML joined by newlines.
    pub fn into_html(&self) -> (r: String)
        ensures
            r@ == doc_html(self@),
    {
        let ghost parts = Seq::new(self@.len(), |i: int| node_html(self@[i]));
        let mut v: Vec<char> = Vec::new();
        let mut k: usize = 0;
        proof {
            assert(v@ =~= join_with(parts.take(0), "\n"@));
        }
        while k < self.nodes.len()
            invariant
                k <= self.nodes@.len(),
                parts == Seq::new(self@.len(), |i: int| node_html(self@[i])),
                self@.len() == self.nodes@.len(),
                self@ == nodes_view(self.nodes@),
                v@ == join_with(parts.take(k as int), "\n"@),
            decreases self.nodes@.len() - k,
        {
            if k > 0 {
                append_str(&mut v, "\n");
            }
            let h = self.nodes[k].into_html();
            append_str(&mut v, h.as_str());
            proof {
                lemma_join_push(parts.take(k as int), "\n"@, parts[k as int]);
                assert(parts.take(k as int).push(parts[k as int]) =~= parts.take(k as int + 1));
                assert(v@ =~= join_with(parts.take(k as int + 1), "\n"@));
            }
            k += 1;
        }
        proof {
            assert(parts.take(self.nodes@.len() as int) =~= parts);
        }
        string_of(&v)
    }
}

/// Pushing a recognized node onto the accumulator keeps the running
/// equation of the tokenizer loop.
proof fn lemma_tokenizer_step(
    old_ns: Seq<Node>,
    new_ns: Seq<Node>,
    m: NodeModel,
    lines: Seq<Seq<char>>,
    cur: int,
    next: int,
)
    requires
        new_ns == old_ns.push(new_ns.last()),
        new_ns.len() == old_ns.len() + 1,
        new_ns.last()@ == m,
        parse_doc(lines, cur) == seq![m] + parse_doc(lines, next),
    ensures
        nodes_view(old_ns) + parse_doc(lines, cur) == nodes_view(new_ns) + parse_doc(
            lines,
            next,
        ),
{
    assert(nodes_view(new_ns) =~= nodes_view(old_ns) + seq![m]);
    assert(nodes_view(old_ns) + (seq![m] + parse_doc(lines, next)) =~= (nodes_view(old_ns)
        + seq![m]) + parse_doc(lines, next));
}

} // verus!
