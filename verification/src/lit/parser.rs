//! The executable markup parser, proved to return exactly what the grammar
//! of `crate::lit::grammar` describes.

use vstd::prelude::*;

use crate::lit::grammar::{
    col_of, count_newlines, find2, find3, is_name_char, is_name_start, is_special, line_of,
    scan_name, scan_not_rbrace, scan_plain, sp_args, sp_argument, sp_call, sp_comment, sp_doc,
    sp_name, sp_node, sp_nodes, sp_text, sp_verbatim, text_piece_end, text_run_end,
};
use crate::lit::types::{
    args_view, doc_view, lemma_doc_view, node_view, LitDocument, LitNode, NodeV, ParseError,
};
use crate::text::{str_chars, string_from_range};

verus! {

/// Whether `c` is one of `\`, `{`, `}` (executable form of `is_special`).
fn special_char(c: char) -> (r: bool)
    ensures
        r == is_special(c),
{
    c == '\\' || c == '{' || c == '}'
}

/// Whether `c` can start a call name (executable form of `is_name_start`).
fn name_start_char(c: char) -> (r: bool)
    ensures
        r == is_name_start(c),
{
    let u = c as u32;
    (97 <= u && u <= 122) || (65 <= u && u <= 90)
}

/// Whether `c` can continue a call name (executable form of `is_name_char`).
fn name_char(c: char) -> (r: bool)
    ensures
        r == is_name_char(c),
{
    let u = c as u32;
    (97 <= u && u <= 122) || (65 <= u && u <= 90) || (48 <= u && u <= 57) || c == '-'
}

/// End of the run of plain characters starting at `from`.
fn scan_plain_x(v: &Vec<char>, from: usize) -> (e: usize)
    requires
        from <= v@.len(),
    ensures
        e == scan_plain(v@, from as int),
        from <= e <= v@.len(),
{
    let mut i = from;
    while i < v.len() && !special_char(v[i])
        invariant
            from <= i <= v@.len(),
            scan_plain(v@, from as int) == scan_plain(v@, i as int),
        decreases v@.len() - i,
    {
        i = i + 1;
    }
    i
}

/// End of the run of name characters starting at `from`.
fn scan_name_x(v: &Vec<char>, from: usize) -> (e: usize)
    requires
        from <= v@.len(),
    ensures
        e == scan_name(v@, from as int),
        from <= e <= v@.len(),
{
    let mut i = from;
    while i < v.len() && name_char(v[i])
        invariant
            from <= i <= v@.len(),
            scan_name(v@, from as int) == scan_name(v@, i as int),
        decreases v@.len() - i,
    {
        i = i + 1;
    }
    i
}

/// First position at or after `from` holding `'}'`; the length if none does.
fn scan_not_rbrace_x(v: &Vec<char>, from: usize) -> (e: usize)
    requires
        from <= v@.len(),
    ensures
        e == scan_not_rbrace(v@, from as int),
        from <= e <= v@.len(),
{
    let mut i = from;
    while i < v.len() && v[i] != '}'
        invariant
            from <= i <= v@.len(),
            scan_not_rbrace(v@, from as int) == scan_not_rbrace(v@, i as int),
        decreases v@.len() - i,
    {
        i = i + 1;
    }
    i
}

/// First position `j` at or after `from` where `v[j] == a && v[j + 1] == b`.
fn find2_x(v: &Vec<char>, from: usize, a: char, b: char) -> (r: Option<usize>)
    requires
        from <= v@.len(),
    ensures
        match r {
            Some(e) => find2(v@, from as int, a, b) == Some(e as int) && from <= e && e + 2
                <= v@.len(),
            None => find2(v@, from as int, a, b) is None,
        },
{
    let mut i = from;
    while i < v.len() && i + 1 < v.len() && !(v[i] == a && v[i + 1] == b)
        invariant
            from <= i <= v@.len(),
            find2(v@, from as int, a, b) == find2(v@, i as int, a, b),
        decreases v@.len() - i,
    {
        i = i + 1;
    }
    if i < v.len() && i + 1 < v.len() {
        Some(i)
    } else {
        None
    }
}

/// First position `j` at or after `from` where three `c` stand in a row.
fn find3_x(v: &Vec<char>, from: usize, c: char) -> (r: Option<usize>)
    requires
        from <= v@.len(),
    ensures
        match r {
            Some(e) => find3(v@, from as int, c) == Some(e as int) && from <= e && e + 3
                <= v@.len(),
            None => find3(v@, from as int, c) is None,
        },
{
    let mut i = from;
    while i < v.len() && i + 1 < v.len() && i + 2 < v.len() && !(v[i] == c && v[i + 1] == c && v[i
        + 2] == c)
        invariant
            from <= i <= v@.len(),
            find3(v@, from as int, c) == find3(v@, i as int, c),
        decreases v@.len() - i,
    {
        i = i + 1;
    }
    if i < v.len() && i + 1 < v.len() && i + 2 < v.len() {
        Some(i)
    } else {
        None
    }
}

/// One piece of a text run (executable form of `text_piece_end`).
fn piece_end_x(v: &Vec<char>, pos: usize) -> (r: Option<usize>)
    requires
        pos <= v@.len(),
    ensures
        match r {
            Some(e) => text_piece_end(v@, pos as int) == Some(e as int) && pos < e <= v@.len(),
            None => text_piece_end(v@, pos as int) is None,
        },
{
    if pos >= v.len() {
        None
    } else if !special_char(v[pos]) {
        Some(scan_plain_x(v, pos + 1))
    } else if v[pos] == '\\' {
        if pos + 1 < v.len() && (v[pos + 1] == '\\' || v[pos + 1] == '{' || v[pos + 1] == '}') {
            Some(pos + 2)
        } else {
            None
        }
    } else if v[pos] == '{' {
        let j = scan_not_rbrace_x(v, pos + 1);
        if j > pos + 1 && j < v.len() {
            Some(j + 1)
        } else {
            None
        }
    } else {
        None
    }
}

/// End of the longest text run starting at `pos` (executable form of
/// `text_run_end`).
fn text_run_end_x(v: &Vec<char>, pos: usize) -> (e: usize)
    requires
        pos <= v@.len(),
    ensures
        e == text_run_end(v@, pos as int),
        pos <= e <= v@.len(),
{
    let mut i = pos;
    loop
        invariant
            pos <= i <= v@.len(),
            text_run_end(v@, pos as int) == text_run_end(v@, i as int),
        decreases v@.len() - i,
    {
        match piece_end_x(v, i) {
            None => {
                return i;
            },
            Some(e) => {
                i = e;
            },
        }
    }
}

/// Parses one text run.
fn p_text(v: &Vec<char>, pos: usize) -> (r: Option<(LitNode, usize)>)
    requires
        pos <= v@.len(),
    ensures
        match r {
            Some(np) => sp_text(v@, pos as int) == Some((node_view(np.0), np.1 as int)) && pos
                < np.1 <= v@.len(),
            None => sp_text(v@, pos as int) is None,
        },
{
    let e = text_run_end_x(v, pos);
    if e > pos {
        Some((LitNode::Text(string_from_range(v, pos, e)), e))
    } else {
        None
    }
}

/// Parses one comment.
fn p_comment(v: &Vec<char>, pos: usize) -> (r: Option<(LitNode, usize)>)
    requires
        pos <= v@.len(),
    ensures
        match r {
            Some(np) => sp_comment(v@, pos as int) == Some((node_view(np.0), np.1 as int)) && pos
                < np.1 <= v@.len(),
            None => sp_comment(v@, pos as int) is None,
        },
{
    if pos < v.len() && pos + 1 < v.len() && v[pos] == '{' && v[pos + 1] == '-' {
        match find2_x(v, pos + 2, '-', '}') {
            Some(e) => {
                if e > pos + 2 {
                    Some((LitNode::Comment(string_from_range(v, pos + 2, e)), e + 2))
                } else {
                    None
                }
            },
            None => None,
        }
    } else {
        None
    }
}

/// Parses one call name.
fn p_name(v: &Vec<char>, pos: usize) -> (r: Option<(String, usize)>)
    requires
        pos <= v@.len(),
    ensures
        match r {
            Some(np) => sp_name(v@, pos as int) == Some((np.0@, np.1 as int)) && pos < np.1
                <= v@.len(),
            None => sp_name(v@, pos as int) is None,
        },
{
    if pos < v.len() && name_start_char(v[pos]) {
        let j = scan_name_x(v, pos + 1);
        if j > pos + 1 {
            Some((string_from_range(v, pos, j), j))
        } else {
            None
        }
    } else {
        None
    }
}

/// Parses one verbatim argument.
fn p_verbatim(v: &Vec<char>, pos: usize) -> (r: Option<(LitDocument, usize)>)
    requires
        pos <= v@.len(),
    ensures
        match r {
            Some(np) => sp_verbatim(v@, pos as int) == Some((doc_view(np.0@), np.1 as int)) && pos
                < np.1 <= v@.len(),
            None => sp_verbatim(v@, pos as int) is None,
        },
{
    if pos < v.len() && pos + 1 < v.len() && pos + 2 < v.len() && v[pos] == '{' && v[pos + 1]
        == '{' && v[pos + 2] == '{' {
        match find3_x(v, pos + 3, '}') {
            Some(e) => {
                if e > pos + 3 {
                    let node = LitNode::Text(string_from_range(v, pos + 3, e));
                    let ghost gnode = node;
                    let mut doc: LitDocument = Vec::new();
                    doc.push(node);
                    proof {
                        lemma_doc_view(doc@);
                        assert(doc_view(doc@) =~= seq![node_view(gnode)]);
                        assert(node_view(gnode) == NodeV::Text(v@.subrange(pos + 3, e as int)));
                    }
                    Some((doc, e + 3))
                } else {
                    None
                }
            },
            None => None,
        }
    } else {
        None
    }
}

/// Parses one node: ordered choice of call, comment and text run.
fn p_node(v: &Vec<char>, pos: usize) -> (r: Option<(LitNode, usize)>)
    requires
        pos <= v@.len(),
    ensures
        match r {
            Some(np) => sp_node(v@, pos as int) == Some((node_view(np.0), np.1 as int)) && pos
                < np.1 <= v@.len(),
            None => sp_node(v@, pos as int) is None,
        },
    decreases v@.len() - pos, 2int,
{
    match p_call(v, pos) {
        Some(r) => Some(r),
        None => match p_comment(v, pos) {
            Some(r) => Some(r),
            None => p_text(v, pos),
        },
    }
}

/// Parses one call.
fn p_call(v: &Vec<char>, pos: usize) -> (r: Option<(LitNode, usize)>)
    requires
        pos <= v@.len(),
    ensures
        match r {
            Some(np) => sp_call(v@, pos as int) == Some((node_view(np.0), np.1 as int)) && pos
                < np.1 <= v@.len(),
            None => sp_call(v@, pos as int) is None,
        },
    decreases v@.len() - pos, 1int,
{
    if pos < v.len() && v[pos] == '\\' {
        match p_name(v, pos + 1) {
            Some((name, p2)) => {
                let (args, p3) = p_args(v, p2);
                Some((LitNode::Fn(name, args), p3))
            },
            None => None,
        }
    } else {
        None
    }
}

/// Parses the argument list of a call.
fn p_args(v: &Vec<char>, pos: usize) -> (r: (Vec<LitDocument>, usize))
    requires
        pos <= v@.len(),
    ensures
        ({
            let s = sp_args(v@, pos as int);
            args_view(r.0@) == s.0 && r.1 as int == s.1 && pos <= r.1 <= v@.len()
        }),
    decreases v@.len() - pos, 1int,
{
    match p_argument(v, pos) {
        None => {
            proof {
                assert(args_view(Seq::<LitDocument>::empty()) =~= Seq::<Seq<NodeV>>::empty());
            }
            (Vec::new(), pos)
        },
        Some((arg, p2)) => {
            let (mut rest, p3) = p_args(v, p2);
            let ghost rest0 = rest@;
            rest.insert(0, arg);
            proof {
                assert(rest@.drop_first() =~= rest0);
            }
            (rest, p3)
        },
    }
}

/// Parses one argument: ordered choice of the verbatim, preformatted and
/// regular forms.
fn p_argument(v: &Vec<char>, pos: usize) -> (r: Option<(LitDocument, usize)>)
    requires
        pos <= v@.len(),
    ensures
        match r {
            Some(np) => sp_argument(v@, pos as int) == Some((doc_view(np.0@), np.1 as int)) && pos
                < np.1 <= v@.len(),
            None => sp_argument(v@, pos as int) is None,
        },
    decreases v@.len() - pos, 0int,
{
    match p_verbatim(v, pos) {
        Some(r) => Some(r),
        None => {
            let pre: Option<(LitDocument, usize)> = if pos < v.len() && pos + 1 < v.len() && v[pos]
                == '{' && v[pos + 1] == '{' {
                let (content, p2) = p_nodes(v, pos + 2);
                if p2 < v.len() && p2 + 1 < v.len() && v[p2] == '}' && v[p2 + 1] == '}' {
                    Some((content, p2 + 2))
                } else {
                    None
                }
            } else {
                None
            };
            match pre {
                Some(r) => Some(r),
                None => {
                    if pos < v.len() && v[pos] == '{' {
                        let (content, p2) = p_nodes(v, pos + 1);
                        if p2 < v.len() && v[p2] == '}' {
                            Some((content, p2 + 1))
                        } else {
                            None
                        }
                    } else {
                        None
                    }
                },
            }
        },
    }
}

/// Parses nodes as long as one matches.
fn p_nodes(v: &Vec<char>, pos: usize) -> (r: (LitDocument, usize))
    requires
        pos <= v@.len(),
    ensures
        ({
            let s = sp_nodes(v@, pos as int);
            doc_view(r.0@) == s.0 && r.1 as int == s.1 && pos <= r.1 <= v@.len()
        }),
    decreases v@.len() - pos, 3int,
{
    match p_node(v, pos) {
        None => {
            proof {
                assert(doc_view(Seq::<LitNode>::empty()) =~= Seq::<NodeV>::empty());
            }
            (Vec::new(), pos)
        },
        Some((n, p2)) => {
            let (mut rest, p3) = p_nodes(v, p2);
            let ghost rest0 = rest@;
            rest.insert(0, n);
            proof {
                assert(rest@.drop_first() =~= rest0);
            }
            (rest, p3)
        },
    }
}

/// Number of newlines before `end`, and the 1-based column at `end`.
fn position_of(v: &Vec<char>, end: usize) -> (r: (usize, usize))
    requires
        end < v@.len(),
    ensures
        r.0 as int == count_newlines(v@, end as int),
        r.1 as int == col_of(v@, end as int),
        r.0 <= end,
{
    let n = v.len();
    let mut lines: usize = 0;
    let mut col: usize = 1;
    let mut i: usize = 0;
    while i < end
        invariant
            n == v@.len(),
            i <= end < v@.len(),
            lines as int == count_newlines(v@, i as int),
            col as int == col_of(v@, i as int),
            lines <= i,
            col <= i + 1,
        decreases end - i,
    {
        if v[i] == '\n' {
            lines = lines + 1;
            col = 1;
        } else {
            col = col + 1;
        }
        i = i + 1;
    }
    (lines, col)
}

/// Parses a whole document.
///
/// The result is exactly what the grammar in `crate::lit::grammar` gives:
/// the node list of `sp_doc` on success, and on failure the position at
/// which no further node could be parsed, with its 1-based line and column.
pub fn parse(contents: &str) -> (r: Result<LitDocument, ParseError>)
    ensures
        match r {
            Ok(doc) => sp_doc(contents@) == Ok::<Seq<NodeV>, int>(doc_view(doc@)),
            Err(e) => sp_doc(contents@) == Err::<Seq<NodeV>, int>(e.offset as int) && e.offset
                < contents@.len() && e.line as int == line_of(contents@, e.offset as int)
                && e.column as int == col_of(contents@, e.offset as int),
        },
{
    let v = str_chars(contents);
    let (nodes, p) = p_nodes(&v, 0);
    if p == v.len() {
        Ok(nodes)
    } else {
        let (lines, col) = position_of(&v, p);
        Err(ParseError { offset: p, line: lines + 1, column: col })
    }
}

} // verus!
