//! The markup grammar, stated as specification functions over character
//! sequences.
//!
//! Each rule takes the input and a position and yields the parsed value and
//! the position after it, or nothing where the rule does not match. Choice is
//! ordered (first match wins) and repetition is greedy, as in the grammar:
//!
//! ```text
//! Doc      := Node* (must consume the whole input)
//! Node     := Call | Comment | TextRun
//! Call     := "\" Name Argument*      Name := letter (letter|digit|"-")+
//! Comment  := "{-" (not "-}")+ "-}"
//! Argument := "{{{" (not "}}}")+ "}}}"          (verbatim: one text node)
//!           | "{{" Node* "}}" | "{" Node* "}"
//! TextRun  := (plain+ | "\\" | "\{" | "\}" | "{" (not "}")+ "}")+
//! ```
//!
//! where `plain` is any character other than `\`, `{`, `}`. Recursive rules
//! carry a bounds guard on the position returned by the sub-rule, so that
//! termination is structural; the guards always hold of the values the rules
//! return.

use vstd::prelude::*;

use crate::lit::types::{all_text, raw_text_view, NodeV};

verus! {

/// A character that cannot stand in a plain text run.
pub open spec fn is_special(c: char) -> bool {
    c == '\\' || c == '{' || c == '}'
}

/// A letter, as a call name may start with.
pub open spec fn is_name_start(c: char) -> bool {
    ('a' as u32) <= (c as u32) && (c as u32) <= ('z' as u32) || ('A' as u32) <= (c as u32) && (
    c as u32) <= ('Z' as u32)
}

/// A letter, digit or hyphen, as a call name continues with.
pub open spec fn is_name_char(c: char) -> bool {
    is_name_start(c) || ('0' as u32) <= (c as u32) && (c as u32) <= ('9' as u32) || c == '-'
}

/// End of the run of plain characters starting at `i`.
pub open spec fn scan_plain(s: Seq<char>, i: int) -> int
    decreases s.len() - i,
{
    if i < 0 || i >= s.len() || is_special(s[i]) {
        i
    } else {
        scan_plain(s, i + 1)
    }
}

/// End of the run of name characters starting at `i`.
pub open spec fn scan_name(s: Seq<char>, i: int) -> int
    decreases s.len() - i,
{
    if i < 0 || i >= s.len() || !is_name_char(s[i]) {
        i
    } else {
        scan_name(s, i + 1)
    }
}

/// First position at or after `i` that holds `'}'`; `s.len()` if none does.
pub open spec fn scan_not_rbrace(s: Seq<char>, i: int) -> int
    decreases s.len() - i,
{
    if i < 0 || i >= s.len() || s[i] == '}' {
        if i < 0 || i > s.len() {
            s.len() as int
        } else {
            i
        }
    } else {
        scan_not_rbrace(s, i + 1)
    }
}

/// First position `j` at or after `i` where `s[j] == a && s[j + 1] == b`.
pub open spec fn find2(s: Seq<char>, i: int, a: char, b: char) -> Option<int>
    decreases s.len() - i,
{
    if i < 0 || i + 2 > s.len() {
        None
    } else if s[i] == a && s[i + 1] == b {
        Some(i)
    } else {
        find2(s, i + 1, a, b)
    }
}

/// First position `j` at or after `i` where three `c` stand in a row.
pub open spec fn find3(s: Seq<char>, i: int, c: char) -> Option<int>
    decreases s.len() - i,
{
    if i < 0 || i + 3 > s.len() {
        None
    } else if s[i] == c && s[i + 1] == c && s[i + 2] == c {
        Some(i)
    } else {
        find3(s, i + 1, c)
    }
}

/// One piece of a text run: a plain run, a two-character escape, or a
/// balanced `{...}` span whose content holds no `'}'`. Yields the position
/// after the piece.
pub open spec fn text_piece_end(s: Seq<char>, pos: int) -> Option<int> {
    if pos < 0 || pos >= s.len() {
        None
    } else if !is_special(s[pos]) {
        Some(scan_plain(s, pos + 1))
    } else if s[pos] == '\\' {
        if pos + 1 < s.len() && (s[pos + 1] == '\\' || s[pos + 1] == '{' || s[pos + 1] == '}') {
            Some(pos + 2)
        } else {
            None
        }
    } else if s[pos] == '{' {
        let j = scan_not_rbrace(s, pos + 1);
        if j > pos + 1 && j < s.len() {
            Some(j + 1)
        } else {
            None
        }
    } else {
        None
    }
}

/// End of the longest text run starting at `pos`; `pos` itself if no piece
/// matches there.
pub open spec fn text_run_end(s: Seq<char>, pos: int) -> int
    decreases s.len() - pos,
{
    match text_piece_end(s, pos) {
        None => pos,
        Some(e) => if pos < e && e <= s.len() {
            text_run_end(s, e)
        } else {
            pos
        },
    }
}

/// The `TextRun` rule.
pub open spec fn sp_text(s: Seq<char>, pos: int) -> Option<(NodeV, int)> {
    let e = text_run_end(s, pos);
    if e > pos {
        Some((NodeV::Text(s.subrange(pos, e)), e))
    } else {
        None
    }
}

/// The `Comment` rule.
pub open spec fn sp_comment(s: Seq<char>, pos: int) -> Option<(NodeV, int)> {
    if 0 <= pos && pos + 2 <= s.len() && s[pos] == '{' && s[pos + 1] == '-' {
        match find2(s, pos + 2, '-', '}') {
            Some(e) => if e > pos + 2 {
                Some((NodeV::Comment(s.subrange(pos + 2, e)), e + 2))
            } else {
                None
            },
            None => None,
        }
    } else {
        None
    }
}

/// The `Name` rule: a letter followed by at least one letter, digit or
/// hyphen.
pub open spec fn sp_name(s: Seq<char>, pos: int) -> Option<(Seq<char>, int)> {
    if 0 <= pos && pos < s.len() && is_name_start(s[pos]) {
        let j = scan_name(s, pos + 1);
        if j > pos + 1 {
            Some((s.subrange(pos, j), j))
        } else {
            None
        }
    } else {
        None
    }
}

/// The verbatim form of `Argument`: its content becomes a single text node,
/// with no nested parsing and no escape handling.
pub open spec fn sp_verbatim(s: Seq<char>, pos: int) -> Option<(Seq<NodeV>, int)> {
    if 0 <= pos && pos + 3 <= s.len() && s[pos] == '{' && s[pos + 1] == '{' && s[pos + 2] == '{' {
        match find3(s, pos + 3, '}') {
            Some(e) => if e > pos + 3 {
                Some((seq![NodeV::Text(s.subrange(pos + 3, e))], e + 3))
            } else {
                None
            },
            None => None,
        }
    } else {
        None
    }
}

/// The `Node` rule: ordered choice of call, comment and text run.
pub open spec fn sp_node(s: Seq<char>, pos: int) -> Option<(NodeV, int)>
    decreases s.len() - pos, 2int,
{
    match sp_call(s, pos) {
        Some(r) => Some(r),
        None => match sp_comment(s, pos) {
            Some(r) => Some(r),
            None => sp_text(s, pos),
        },
    }
}

/// The `Call` rule.
pub open spec fn sp_call(s: Seq<char>, pos: int) -> Option<(NodeV, int)>
    decreases s.len() - pos, 1int,
{
    if 0 <= pos && pos < s.len() && s[pos] == '\\' {
        match sp_name(s, pos + 1) {
            Some((name, p2)) => if pos < p2 && p2 <= s.len() {
                let (args, p3) = sp_args(s, p2);
                Some((NodeV::Fn(name, args), p3))
            } else {
                None
            },
            None => None,
        }
    } else {
        None
    }
}

/// The `Argument*` repetition.
pub open spec fn sp_args(s: Seq<char>, pos: int) -> (Seq<Seq<NodeV>>, int)
    decreases s.len() - pos, 1int,
{
    match sp_argument(s, pos) {
        None => (seq![], pos),
        Some((arg, p2)) => if pos < p2 && p2 <= s.len() {
            let r = sp_args(s, p2);
            (seq![arg] + r.0, r.1)
        } else {
            (seq![], pos)
        },
    }
}

/// The `Argument` rule: ordered choice of the verbatim, preformatted and
/// regular forms. The preformatted and regular forms parse their content
/// recursively and identically.
pub open spec fn sp_argument(s: Seq<char>, pos: int) -> Option<(Seq<NodeV>, int)>
    decreases s.len() - pos, 0int,
{
    match sp_verbatim(s, pos) {
        Some(r) => Some(r),
        None => {
            let pre: Option<(Seq<NodeV>, int)> = if 0 <= pos && pos + 2 <= s.len() && s[pos] == '{'
                && s[pos + 1] == '{' {
                let r = sp_nodes(s, pos + 2);
                if r.1 + 2 <= s.len() && s[r.1] == '}' && s[r.1 + 1] == '}' {
                    Some((r.0, r.1 + 2))
                } else {
                    None
                }
            } else {
                None
            };
            match pre {
                Some(r) => Some(r),
                None => if 0 <= pos && pos + 1 <= s.len() && s[pos] == '{' {
                    let r = sp_nodes(s, pos + 1);
                    if r.1 < s.len() && s[r.1] == '}' {
                        Some((r.0, r.1 + 1))
                    } else {
                        None
                    }
                } else {
                    None
                },
            }
        },
    }
}

/// The `Node*` repetition: parses nodes as long as one matches, and yields
/// them with the position where no further node matched.
pub open spec fn sp_nodes(s: Seq<char>, pos: int) -> (Seq<NodeV>, int)
    decreases s.len() - pos, 3int,
{
    match sp_node(s, pos) {
        None => (seq![], pos),
        Some((n, p2)) => if pos < p2 && p2 <= s.len() {
            let r = sp_nodes(s, p2);
            (seq![n] + r.0, r.1)
        } else {
            (seq![], pos)
        },
    }
}

/// The whole document: `Node*`, which must consume the input entirely.
/// A failure carries the position at which no further node could be parsed.
pub open spec fn sp_doc(s: Seq<char>) -> Result<Seq<NodeV>, int> {
    let r = sp_nodes(s, 0);
    if r.1 == s.len() {
        Ok(r.0)
    } else {
        Err(r.1)
    }
}

/// The node list that `Node*` yields at `pos` covers exactly `s[pos..end]`,
/// and, where every node is a text node, the concatenation of their contents
/// is exactly that span of the input.
pub proof fn lemma_nodes_text_roundtrip(s: Seq<char>, pos: int)
    requires
        0 <= pos <= s.len(),
    ensures
        ({
            let r = sp_nodes(s, pos);
            pos <= r.1 <= s.len() && (all_text(r.0) ==> raw_text_view(r.0) == s.subrange(
                pos,
                r.1,
            ))
        }),
    decreases s.len() - pos,
{
    let r = sp_nodes(s, pos);
    match sp_node(s, pos) {
        None => {
            assert(r.0 =~= Seq::<NodeV>::empty());
            assert(raw_text_view(r.0) =~= s.subrange(pos, pos));
        },
        Some((n, p2)) => {
            if pos < p2 && p2 <= s.len() {
                lemma_nodes_text_roundtrip(s, p2);
                let rest = sp_nodes(s, p2);
                assert(r.0 == seq![n] + rest.0 && r.1 == rest.1);
                if all_text(r.0) {
                    assert(n == r.0[0]);
                    assert forall|i: int| 0 <= i < rest.0.len() implies rest.0[i] is Text by {
                        assert(rest.0[i] == r.0[i + 1]);
                    }
                    assert(all_text(rest.0));
                    assert(match sp_call(s, pos) {
                        Some(x) => x.0 is Fn,
                        None => true,
                    });
                    assert(match sp_comment(s, pos) {
                        Some(x) => x.0 is Comment,
                        None => true,
                    });
                    assert(sp_text(s, pos) == Some((n, p2)));
                    assert(n == NodeV::Text(s.subrange(pos, p2)));
                    assert(r.0.drop_first() =~= rest.0);
                    assert(raw_text_view(r.0) == s.subrange(pos, p2) + raw_text_view(rest.0));
                    assert(s.subrange(pos, p2) + s.subrange(p2, r.1) =~= s.subrange(pos, r.1));
                }
            } else {
                assert(r.0 =~= Seq::<NodeV>::empty());
                assert(raw_text_view(r.0) =~= s.subrange(pos, pos));
            }
        },
    }
}

/// Round trip: a document that parses entirely to text nodes reproduces the
/// input exactly when the contents of those nodes are concatenated. (The
/// parser keeps escape sequences in text content as they stood; they are
/// collapsed only by the markdown renderer.)
pub proof fn lemma_parse_text_roundtrip(s: Seq<char>)
    ensures
        match sp_doc(s) {
            Ok(nodes) => all_text(nodes) ==> raw_text_view(nodes) == s,
            Err(_) => true,
        },
{
    lemma_nodes_text_roundtrip(s, 0);
    assert(s.subrange(0, s.len() as int) =~= s);
}

/// Number of newline characters in `s` before position `end`.
pub open spec fn count_newlines(s: Seq<char>, end: int) -> int
    decreases end,
{
    if end <= 0 || end > s.len() {
        0
    } else {
        count_newlines(s, end - 1) + if s[end - 1] == '\n' {
            1int
        } else {
            0int
        }
    }
}

/// 1-based line number of the character at offset `off`.
pub open spec fn line_of(s: Seq<char>, off: int) -> int {
    1 + count_newlines(s, off)
}

/// 1-based column of the character at offset `off`: characters since the
/// last newline before it.
pub open spec fn col_of(s: Seq<char>, off: int) -> int
    decreases off,
{
    if off <= 0 || off > s.len() {
        1
    } else if s[off - 1] == '\n' {
        1
    } else {
        col_of(s, off - 1) + 1
    }
}

} // verus!
