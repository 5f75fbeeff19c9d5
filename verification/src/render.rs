//! The text renderer: produces human-readable documentation strings and
//! raw text from node trees.
//!
//! `raw_text` concatenates only the literal text of the top-level text
//! nodes, ignoring calls and comments; it is used for type strings and code
//! spans, which must not be markdown-interpreted. `text_to_markdown` renders
//! a tree as markdown: text runs through a whitespace-normalizing pass (each
//! line trimmed, whitespace-only lines becoming paragraph breaks), a fixed
//! set of formatting calls (bold, code, codeblock, example, warning) to
//! their markdown shapes, and any other call transparently, by rendering
//! its arguments in order. After assembly the escaped-brace markers `\{`
//! and `\}` are collapsed to `{` and `}`, once, over the whole result.
//!
//! Whitespace is ASCII whitespace throughout, and code-block indentation is
//! counted in characters.

use vstd::prelude::*;

use crate::lit::types::{args_view, doc_view, lemma_args_view, lemma_doc_view, node_view,
    raw_text_view, LitDocument, LitNode, NodeV};
use crate::text::{str_chars, str_eq, string_of_chars, trim_range, trim_spec};

verus! {

/// First position at or after `i` that holds a newline; the length if none
/// does.
pub open spec fn line_end(s: Seq<char>, i: int) -> int
    decreases s.len() - i,
{
    if i < 0 || i >= s.len() {
        s.len() as int
    } else if s[i] == '\n' {
        i
    } else {
        line_end(s, i + 1)
    }
}

/// The whitespace-normalizing pass over the text from position `i` on:
/// each line becomes a space, its trimmed content and a space, and a line
/// of only whitespace becomes a paragraph break.
pub open spec fn sp_clean(s: Seq<char>, i: int) -> Seq<char>
    decreases s.len() - i,
{
    if i < 0 || i >= s.len() {
        seq![]
    } else {
        let e = line_end(s, i);
        let t = trim_spec(s.subrange(i, if i <= e <= s.len() {
            e
        } else {
            i
        }));
        let piece = if t.len() == 0 {
            seq!['\n', '\n']
        } else {
            seq![' '] + t + seq![' ']
        };
        if i <= e && e < s.len() {
            piece + sp_clean(s, e + 1)
        } else {
            piece
        }
    }
}

/// Position of the first character of the line that is not a space; nothing
/// if the line is empty or all spaces.
pub open spec fn indent_of(line: Seq<char>, i: int) -> Option<int>
    decreases line.len() - i,
{
    if i < 0 || i >= line.len() {
        None
    } else if line[i] != ' ' {
        Some(i)
    } else {
        indent_of(line, i + 1)
    }
}

/// The line without a trailing carriage return.
pub open spec fn strip_cr(line: Seq<char>) -> Seq<char> {
    if line.len() > 0 && line[line.len() - 1] == '\r' {
        line.drop_last()
    } else {
        line
    }
}

/// The smaller of two optional indentations.
pub open spec fn opt_min(a: Option<int>, b: Option<int>) -> Option<int> {
    match (a, b) {
        (Some(x), Some(y)) => Some(
            if x <= y {
                x
            } else {
                y
            },
        ),
        (Some(x), None) => Some(x),
        (None, y) => y,
    }
}

/// The smallest indentation over the non-empty lines from `i` on, counting
/// a line only where it has a character that is not a space.
pub open spec fn min_indent(s: Seq<char>, i: int) -> Option<int>
    decreases s.len() - i,
{
    if i < 0 || i >= s.len() {
        None
    } else {
        let e = line_end(s, i);
        let line = strip_cr(s.subrange(i, if i <= e <= s.len() {
            e
        } else {
            i
        }));
        let this = if line.len() > 0 {
            indent_of(line, 0)
        } else {
            None
        };
        if i <= e && e < s.len() {
            opt_min(this, min_indent(s, e + 1))
        } else {
            this
        }
    }
}

/// The indentation that `trim_codeblock` removes: the smallest indentation
/// of any line with content, and zero where no line has any.
pub open spec fn cut_count(s: Seq<char>) -> int {
    match min_indent(s, 0) {
        Some(k) => k,
        None => 0,
    }
}

/// Each newline-separated segment from `i` on, with its first `k`
/// characters removed where it is longer than `k` and trimmed where it is
/// not, joined back with newlines.
pub open spec fn cut_lines(s: Seq<char>, i: int, k: int) -> Seq<char>
    decreases s.len() - i,
{
    if i < 0 || i > s.len() {
        seq![]
    } else {
        let e = line_end(s, i);
        let seg = s.subrange(i, if i <= e <= s.len() {
            e
        } else {
            i
        });
        let cut = if seg.len() > k && k >= 0 {
            seg.skip(k)
        } else {
            trim_spec(seg)
        };
        if i <= e && e < s.len() {
            cut + seq!['\n'] + cut_lines(s, e + 1, k)
        } else {
            cut
        }
    }
}

/// What `trim_codeblock` yields: the common indentation removed from every
/// line, and the whole trimmed.
pub open spec fn sp_trim_codeblock(s: Seq<char>) -> Seq<char> {
    trim_spec(cut_lines(s, 0, cut_count(s)))
}

/// The markdown rendering of a node list: each node rendered in order.
pub open spec fn sp_md(nodes: Seq<NodeV>) -> Seq<char>
    decreases nodes,
{
    if nodes.len() == 0 {
        seq![]
    } else {
        sp_md_node(nodes[0]) + sp_md(nodes.drop_first())
    }
}

/// The markdown rendering of the arguments of an unrecognized call: each
/// argument rendered in order.
pub open spec fn sp_md_args(args: Seq<Seq<NodeV>>) -> Seq<char>
    decreases args,
{
    if args.len() == 0 {
        seq![]
    } else {
        sp_md(args[0]) + sp_md_args(args.drop_first())
    }
}

/// The markdown rendering of one node. A recognized formatting call with
/// too few arguments renders like an unrecognized call: by its arguments.
pub open spec fn sp_md_node(n: NodeV) -> Seq<char>
    decreases n,
{
    match n {
        NodeV::Text(t) => sp_clean(t, 0),
        NodeV::Comment(_) => seq![],
        NodeV::Fn(name, args) => {
            if name == "example-toggle"@ && args.len() >= 2 {
                "\n@example "@ + sp_md(args[0]) + "\n"@ + sp_md(args[1])
            } else if name == "codeblock"@ && args.len() >= 2 {
                "```"@ + trim_spec(raw_text_view(args[0])) + "\n"@ + sp_trim_codeblock(
                    raw_text_view(args[1]),
                ) + "\n```"@
            } else if name == "code"@ && args.len() >= 1 {
                "`"@ + raw_text_view(args[0]) + "`"@
            } else if name == "bold"@ && args.len() >= 1 {
                "**"@ + sp_md(args[0]) + "**"@
            } else if name == "warn"@ && args.len() >= 1 {
                sp_md(args[0])
            } else {
                sp_md_args(args)
            }
        },
    }
}

/// The escaped-brace markers `\{` and `\}` collapsed to `{` and `}`, left
/// to right, without overlap.
pub open spec fn sp_unescape(s: Seq<char>) -> Seq<char>
    decreases s.len(),
{
    if s.len() == 0 {
        seq![]
    } else if s.len() >= 2 && s[0] == '\\' && (s[1] == '{' || s[1] == '}') {
        seq![s[1]] + sp_unescape(s.skip(2))
    } else {
        seq![s[0]] + sp_unescape(s.skip(1))
    }
}

/// What `text_to_markdown` yields: the tree rendered, then the escape
/// markers collapsed once over the assembled whole.
pub open spec fn sp_markdown(nodes: Seq<NodeV>) -> Seq<char> {
    sp_unescape(sp_md(nodes))
}

/// First newline at or after `from` (executable form of `line_end`).
fn line_end_x(v: &Vec<char>, from: usize) -> (e: usize)
    requires
        from <= v@.len(),
    ensures
        e == line_end(v@, from as int),
        from <= e <= v@.len(),
{
    let mut i = from;
    while i < v.len() && v[i] != '\n'
        invariant
            from <= i <= v@.len(),
            line_end(v@, from as int) == line_end(v@, i as int),
        decreases v@.len() - i,
    {
        i = i + 1;
    }
    i
}

/// The whitespace-normalizing pass (executable form of `sp_clean`).
fn clean_chars(v: &Vec<char>, i: usize) -> (r: Vec<char>)
    requires
        i <= v@.len(),
    ensures
        r@ == sp_clean(v@, i as int),
    decreases v@.len() - i,
{
    if i >= v.len() {
        Vec::new()
    } else {
        let e = line_end_x(v, i);
        let t = trim_range(v, i, e);
        let mut piece: Vec<char> = Vec::new();
        if t.len() == 0 {
            piece.push('\n');
            piece.push('\n');
            proof {
                assert(piece@ =~= seq!['\n', '\n']);
            }
        } else {
            let mut tt = t;
            piece.push(' ');
            piece.append(&mut tt);
            piece.push(' ');
            proof {
                assert(piece@ =~= seq![' '] + trim_spec(v@.subrange(i as int, e as int)) + seq![
                    ' ',
                ]);
            }
        }
        if e < v.len() {
            let mut rest = clean_chars(v, e + 1);
            piece.append(&mut rest);
        }
        piece
    }
}

/// Each line trimmed between single spaces, whitespace-only lines becoming
/// paragraph breaks.
pub fn clean_text(text: &str) -> (r: String)
    ensures
        r@ == sp_clean(text@, 0),
{
    let v = str_chars(text);
    let out = clean_chars(&v, 0);
    string_of_chars(&out)
}

/// Position of the first non-space character of `v[from..to]`, relative to
/// `from`.
fn indent_x(v: &Vec<char>, from: usize, to: usize) -> (r: Option<usize>)
    requires
        from <= to <= v@.len(),
    ensures
        match r {
            Some(k) => indent_of(v@.subrange(from as int, to as int), 0) == Some(k as int),
            None => indent_of(v@.subrange(from as int, to as int), 0) is None,
        },
{
    let ghost line = v@.subrange(from as int, to as int);
    let mut i = from;
    while i < to
        invariant
            from <= i <= to <= v@.len(),
            line == v@.subrange(from as int, to as int),
            indent_of(line, 0) == indent_of(line, i - from),
        decreases to - i,
    {
        proof {
            assert(line[i - from] == v@[i as int]);
        }
        if v[i] != ' ' {
            return Some(i - from);
        }
        i = i + 1;
    }
    None
}

/// The smallest indentation over the non-empty lines (executable form of
/// `min_indent`).
fn min_indent_x(v: &Vec<char>, i: usize) -> (r: Option<usize>)
    requires
        i <= v@.len(),
    ensures
        match r {
            Some(k) => min_indent(v@, i as int) == Some(k as int),
            None => min_indent(v@, i as int) is None,
        },
    decreases v@.len() - i,
{
    if i >= v.len() {
        None
    } else {
        let e = line_end_x(v, i);
        let e_cr = if e > i && v[e - 1] == '\r' {
            e - 1
        } else {
            e
        };
        proof {
            assert(strip_cr(v@.subrange(i as int, e as int)) =~= v@.subrange(
                i as int,
                e_cr as int,
            ));
        }
        let this = if e_cr > i {
            indent_x(v, i, e_cr)
        } else {
            None
        };
        let rest = if e < v.len() {
            min_indent_x(v, e + 1)
        } else {
            None
        };
        let out = match (this, rest) {
            (Some(x), Some(y)) => Some(
                if x <= y {
                    x
                } else {
                    y
                },
            ),
            (Some(x), None) => Some(x),
            (None, y) => y,
        };
        out
    }
}

/// The newline-separated segments, cut or trimmed (executable form of
/// `cut_lines`).
fn cut_lines_x(v: &Vec<char>, i: usize, k: usize) -> (r: Vec<char>)
    requires
        i <= v@.len(),
    ensures
        r@ == cut_lines(v@, i as int, k as int),
    decreases v@.len() - i,
{
    let e = line_end_x(v, i);
    let mut cut: Vec<char>;
    if e - i > k {
        let mut piece: Vec<char> = Vec::new();
        let mut j = i + k;
        while j < e
            invariant
                i + k <= j <= e <= v@.len(),
                piece@ == v@.subrange(i + k, j as int),
            decreases e - j,
        {
            piece.push(v[j]);
            j = j + 1;
            proof {
                assert(piece@ =~= v@.subrange(i + k, j as int));
            }
        }
        proof {
            assert(v@.subrange(i as int, e as int).skip(k as int) =~= v@.subrange(
                i + k,
                e as int,
            ));
        }
        cut = piece;
    } else {
        cut = trim_range(v, i, e);
    }
    if e < v.len() {
        cut.push('\n');
        let mut rest = cut_lines_x(v, e + 1, k);
        cut.append(&mut rest);
        proof {
            assert(cut@ =~= cut_lines(v@, i as int, k as int));
        }
    }
    cut
}

/// The common indentation removed from every line, and the whole trimmed
/// (executable form of `sp_trim_codeblock`).
fn trim_codeblock_chars(v: &Vec<char>) -> (r: Vec<char>)
    ensures
        r@ == sp_trim_codeblock(v@),
{
    let k = match min_indent_x(v, 0) {
        Some(k) => k,
        None => 0,
    };
    let cut = cut_lines_x(v, 0, k);
    let out = trim_range(&cut, 0, cut.len());
    proof {
        assert(cut@.subrange(0, cut@.len() as int) =~= cut@);
    }
    out
}

/// Removes the common leading indentation of a code block and trims it.
pub fn trim_codeblock(text: &str) -> (r: String)
    ensures
        r@ == sp_trim_codeblock(text@),
{
    let v = str_chars(text);
    let out = trim_codeblock_chars(&v);
    string_of_chars(&out)
}

/// The literal text of the top-level text nodes from `i` on.
fn raw_chars(nodes: &LitDocument, i: usize) -> (r: Vec<char>)
    requires
        i <= nodes@.len(),
    ensures
        r@ == raw_text_view(doc_view(nodes@).skip(i as int)),
    decreases nodes@.len() - i,
{
    proof {
        lemma_doc_view(nodes@);
    }
    if i >= nodes.len() {
        proof {
            assert(doc_view(nodes@).skip(i as int) =~= Seq::<NodeV>::empty());
        }
        Vec::new()
    } else {
        let mut rest = raw_chars(nodes, i + 1);
        proof {
            assert(doc_view(nodes@).skip(i as int).drop_first() =~= doc_view(nodes@).skip(
                i + 1,
            ));
            assert(doc_view(nodes@).skip(i as int)[0] == node_view(nodes@[i as int]));
        }
        match &nodes[i] {
            LitNode::Text(t) => {
                let mut out = str_chars(t.as_str());
                out.append(&mut rest);
                out
            },
            _ => rest,
        }
    }
}

/// The literal text content of the document: the contents of its top-level
/// text nodes, concatenated in order; calls and comments contribute nothing.
pub fn raw_text(nodes: &LitDocument) -> (r: String)
    ensures
        r@ == raw_text_view(doc_view(nodes@)),
{
    let out = raw_chars(nodes, 0);
    proof {
        assert(doc_view(nodes@).skip(0) =~= doc_view(nodes@));
    }
    string_of_chars(&out)
}

/// The markdown rendering of the nodes from `i` on.
fn md_nodes_x(nodes: &LitDocument, i: usize) -> (r: Vec<char>)
    requires
        i <= nodes@.len(),
    ensures
        r@ == sp_md(doc_view(nodes@).skip(i as int)),
    decreases nodes, nodes@.len() - i,
{
    proof {
        lemma_doc_view(nodes@);
    }
    if i >= nodes.len() {
        proof {
            assert(doc_view(nodes@).skip(i as int) =~= Seq::<NodeV>::empty());
        }
        Vec::new()
    } else {
        let mut out = md_node_x(&nodes[i]);
        let mut rest = md_nodes_x(nodes, i + 1);
        proof {
            assert(doc_view(nodes@).skip(i as int).drop_first() =~= doc_view(nodes@).skip(
                i + 1,
            ));
            assert(doc_view(nodes@).skip(i as int)[0] == node_view(nodes@[i as int]));
        }
        out.append(&mut rest);
        out
    }
}

/// The markdown rendering of the arguments from `j` on.
fn md_args_x(args: &Vec<LitDocument>, j: usize) -> (r: Vec<char>)
    requires
        j <= args@.len(),
    ensures
        r@ == sp_md_args(args_view(args@).skip(j as int)),
    decreases args, args@.len() - j,
{
    proof {
        lemma_args_view(args@);
    }
    if j >= args.len() {
        proof {
            assert(args_view(args@).skip(j as int) =~= Seq::<Seq<NodeV>>::empty());
        }
        Vec::new()
    } else {
        let mut out = md_nodes_x(&args[j], 0);
        let mut rest = md_args_x(args, j + 1);
        proof {
            assert(args_view(args@).skip(j as int).drop_first() =~= args_view(args@).skip(
                j + 1,
            ));
            assert(args_view(args@).skip(j as int)[0] == doc_view(args@[j as int]@));
            assert(doc_view(args@[j as int]@).skip(0) =~= doc_view(args@[j as int]@));
        }
        out.append(&mut rest);
        out
    }
}

/// The markdown rendering of one node.
fn md_node_x(n: &LitNode) -> (r: Vec<char>)
    ensures
        r@ == sp_md_node(node_view(*n)),
    decreases n, 0int,
{
    match n {
        LitNode::Text(t) => {
            let tv = str_chars(t.as_str());
            clean_chars(&tv, 0)
        },
        LitNode::Comment(_) => Vec::new(),
        LitNode::Fn(name, args) => {
            proof {
                lemma_args_view(args@);
            }
            let ghost av = args_view(args@);
            if str_eq(name.as_str(), "example-toggle") && args.len() >= 2 {
                let mut out = str_chars("\n@example ");
                let mut a0 = md_nodes_x(&args[0], 0);
                let mut sep = str_chars("\n");
                let mut a1 = md_nodes_x(&args[1], 0);
                proof {
                    assert(doc_view(args@[0]@).skip(0) =~= av[0]);
                    assert(doc_view(args@[1]@).skip(0) =~= av[1]);
                }
                out.append(&mut a0);
                out.append(&mut sep);
                out.append(&mut a1);
                out
            } else if str_eq(name.as_str(), "codeblock") && args.len() >= 2 {
                let mut out = str_chars("```");
                let r0 = raw_chars(&args[0], 0);
                let mut lang = trim_range(&r0, 0, r0.len());
                let mut sep = str_chars("\n");
                let r1 = raw_chars(&args[1], 0);
                let mut body = trim_codeblock_chars(&r1);
                let mut close = str_chars("\n```");
                proof {
                    assert(doc_view(args@[0]@).skip(0) =~= av[0]);
                    assert(doc_view(args@[1]@).skip(0) =~= av[1]);
                    assert(r0@.subrange(0, r0@.len() as int) =~= r0@);
                }
                out.append(&mut lang);
                out.append(&mut sep);
                out.append(&mut body);
                out.append(&mut close);
                out
            } else if str_eq(name.as_str(), "code") && args.len() >= 1 {
                let mut out = str_chars("`");
                let mut a0 = raw_chars(&args[0], 0);
                let mut close = str_chars("`");
                proof {
                    assert(doc_view(args@[0]@).skip(0) =~= av[0]);
                }
                out.append(&mut a0);
                out.append(&mut close);
                out
            } else if str_eq(name.as_str(), "bold") && args.len() >= 1 {
                let mut out = str_chars("**");
                let mut a0 = md_nodes_x(&args[0], 0);
                let mut close = str_chars("**");
                proof {
                    assert(doc_view(args@[0]@).skip(0) =~= av[0]);
                }
                out.append(&mut a0);
                out.append(&mut close);
                out
            } else if str_eq(name.as_str(), "warn") && args.len() >= 1 {
                let out = md_nodes_x(&args[0], 0);
                proof {
                    assert(doc_view(args@[0]@).skip(0) =~= av[0]);
                }
                out
            } else {
                let out = md_args_x(args, 0);
                proof {
                    assert(args_view(args@).skip(0) =~= args_view(args@));
                }
                out
            }
        },
    }
}

/// The escape markers collapsed (executable form of `sp_unescape`).
fn unescape_x(v: &Vec<char>) -> (r: Vec<char>)
    ensures
        r@ == sp_unescape(v@),
{
    let n = v.len();
    let mut out: Vec<char> = Vec::new();
    let mut i: usize = 0;
    proof {
        assert(v@.skip(0) =~= v@);
        assert(out@ + sp_unescape(v@) =~= sp_unescape(v@));
    }
    while i < n
        invariant
            i <= n == v@.len(),
            sp_unescape(v@) == out@ + sp_unescape(v@.skip(i as int)),
        decreases n - i,
    {
        let ghost pre = out@;
        let ghost suf = v@.skip(i as int);
        if v[i] == '\\' && i + 1 < n && (v[i + 1] == '{' || v[i + 1] == '}') {
            out.push(v[i + 1]);
            proof {
                assert(suf[0] == v@[i as int] && suf[1] == v@[i + 1]);
                assert(suf.skip(2) =~= v@.skip(i + 2));
                assert(out@ + sp_unescape(v@.skip(i + 2)) =~= pre + sp_unescape(suf));
            }
            i = i + 2;
        } else {
            out.push(v[i]);
            proof {
                assert(suf[0] == v@[i as int]);
                if suf.len() >= 2 {
                    assert(suf[1] == v@[i + 1]);
                }
                assert(suf.skip(1) =~= v@.skip(i + 1));
                assert(out@ + sp_unescape(v@.skip(i + 1)) =~= pre + sp_unescape(suf));
            }
            i = i + 1;
        }
    }
    proof {
        assert(sp_unescape(v@.skip(i as int)) =~= Seq::<char>::empty());
        assert(out@ =~= sp_unescape(v@));
    }
    out
}

/// Renders a document as markdown and collapses the escaped braces.
pub fn text_to_markdown(nodes: &LitDocument) -> (r: String)
    ensures
        r@ == sp_markdown(doc_view(nodes@)),
{
    let md = md_nodes_x(nodes, 0);
    proof {
        assert(doc_view(nodes@).skip(0) =~= doc_view(nodes@));
    }
    let out = unescape_x(&md);
    string_of_chars(&out)
}

} // verus!
