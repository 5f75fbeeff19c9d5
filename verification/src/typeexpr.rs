//! The type-expression parser: turns one attribute's type string into a
//! `PropertyType` tree.
//!
//! The grammar, with ordered choice and greedy repetition:
//!
//! ```text
//! Type     := NonUnion (WS "|" WS NonUnion)*
//! NonUnion := Array | Dict | Constant | Reference
//! Array    := "[" Type "]"
//! Dict     := "{" WS Key WS ":" WS Key "}"
//! Constant := "`" Key "`"
//! Reference:= Key
//! Key      := (letter | digit | "." | "_")+      WS := (" " | "\n")*
//! ```
//!
//! A union of one member collapses to that member, so a `OneOf` always has
//! at least two members. A reference whose identifier contains `.` is
//! normalized to the generic string reference. The dictionary's key and
//! value names are validated and discarded. The whole string must be
//! consumed; a string the grammar does not cover yields nothing.

use vstd::prelude::*;

use crate::schema::types::{
    ptype_view, ptype_wf, ptypes_view, ptypes_wf_nonunion, PTypeV, PropertyType,
};
use crate::text::{str_chars, string_from_range};

verus! {

/// A character that may stand in a key or identifier.
pub open spec fn is_key_char(c: char) -> bool {
    ('a' as u32) <= (c as u32) && (c as u32) <= ('z' as u32) || ('A' as u32) <= (c as u32) && (
    c as u32) <= ('Z' as u32) || ('0' as u32) <= (c as u32) && (c as u32) <= ('9' as u32) || c
        == '.' || c == '_'
}

/// Whitespace inside a type expression: space or newline.
pub open spec fn is_type_ws(c: char) -> bool {
    c == ' ' || c == '\n'
}

/// End of the run of key characters starting at `i`.
pub open spec fn scan_key(s: Seq<char>, i: int) -> int
    decreases s.len() - i,
{
    if i < 0 || i >= s.len() || !is_key_char(s[i]) {
        i
    } else {
        scan_key(s, i + 1)
    }
}

/// End of the run of type whitespace starting at `i`.
pub open spec fn scan_tws(s: Seq<char>, i: int) -> int
    decreases s.len() - i,
{
    if i < 0 || i >= s.len() || !is_type_ws(s[i]) {
        i
    } else {
        scan_tws(s, i + 1)
    }
}

/// Whether the identifier contains a dot. An identifier with a dot names no
/// schema; it is normalized to the generic string reference.
pub open spec fn has_dot(s: Seq<char>) -> bool {
    exists|i: int| 0 <= i < s.len() && s[i] == '.'
}

/// The `Dict` rule: validates the braces, the two keys and the colon, and
/// yields the position after the closing brace. The key and value names are
/// discarded.
pub open spec fn sp_dict_end(s: Seq<char>, pos: int) -> Option<int> {
    if 0 <= pos && pos < s.len() && s[pos] == '{' {
        let a = scan_tws(s, pos + 1);
        let b = scan_key(s, a);
        if b > a && b < s.len() {
            let c = scan_tws(s, b);
            if c < s.len() && s[c] == ':' {
                let d = scan_tws(s, c + 1);
                let e = scan_key(s, d);
                if e > d && e < s.len() && s[e] == '}' {
                    Some(e + 1)
                } else {
                    None
                }
            } else {
                None
            }
        } else {
            None
        }
    } else {
        None
    }
}

/// The `Constant` rule: a key between backticks.
pub open spec fn sp_constant(s: Seq<char>, pos: int) -> Option<(PTypeV, int)> {
    if 0 <= pos && pos < s.len() && s[pos] == '`' {
        let e = scan_key(s, pos + 1);
        if e > pos + 1 && e < s.len() && s[e] == '`' {
            Some((PTypeV::Constant(s.subrange(pos + 1, e)), e + 1))
        } else {
            None
        }
    } else {
        None
    }
}

/// The `Reference` rule: a bare key; one containing a dot is normalized to
/// the generic string reference.
pub open spec fn sp_ref(s: Seq<char>, pos: int) -> Option<(PTypeV, int)> {
    if 0 <= pos {
        let e = scan_key(s, pos);
        if e > pos {
            let name = s.subrange(pos, e);
            Some(
                (
                    PTypeV::Ref(
                        if has_dot(name) {
                            "string"@
                        } else {
                            name
                        },
                    ),
                    e,
                ),
            )
        } else {
            None
        }
    } else {
        None
    }
}

/// The `NonUnion` rule: ordered choice of array, dictionary, constant and
/// reference.
pub open spec fn sp_nonunion(s: Seq<char>, pos: int) -> Option<(PTypeV, int)>
    decreases s.len() - pos, 1int,
{
    let arr: Option<(PTypeV, int)> = if 0 <= pos && pos < s.len() && s[pos] == '[' {
        match sp_ty(s, pos + 1) {
            Some((t, p2)) => if p2 < s.len() && s[p2] == ']' {
                Some((PTypeV::ArrayOf(Box::new(t)), p2 + 1))
            } else {
                None
            },
            None => None,
        }
    } else {
        None
    };
    match arr {
        Some(r) => Some(r),
        None => match sp_dict_end(s, pos) {
            Some(e) => Some((PTypeV::Dict, e)),
            None => match sp_constant(s, pos) {
                Some(r) => Some(r),
                None => sp_ref(s, pos),
            },
        },
    }
}

/// The separated repetition `(WS "|" WS NonUnion)*`: the members after the
/// first, and the position after the last of them.
pub open spec fn sp_more(s: Seq<char>, pos: int) -> (Seq<PTypeV>, int)
    decreases s.len() - pos, 0int,
{
    if 0 <= pos && pos <= s.len() {
        let a = scan_tws(s, pos);
        if a < s.len() && s[a] == '|' {
            let b = scan_tws(s, a + 1);
            if pos < b && b <= s.len() {
                match sp_nonunion(s, b) {
                    Some((t, p2)) => if b < p2 && p2 <= s.len() {
                        let r = sp_more(s, p2);
                        (seq![t] + r.0, r.1)
                    } else {
                        (seq![], pos)
                    },
                    None => (seq![], pos),
                }
            } else {
                (seq![], pos)
            }
        } else {
            (seq![], pos)
        }
    } else {
        (seq![], pos)
    }
}

/// The `Type` rule: one non-union member, possibly followed by further
/// union members. A single member stands alone; two or more become a union.
pub open spec fn sp_ty(s: Seq<char>, pos: int) -> Option<(PTypeV, int)>
    decreases s.len() - pos, 2int,
{
    match sp_nonunion(s, pos) {
        None => None,
        Some((t, p2)) => if pos < p2 && p2 <= s.len() {
            let r = sp_more(s, p2);
            if r.0.len() == 0 {
                Some((t, p2))
            } else {
                Some((PTypeV::OneOf(seq![t] + r.0), r.1))
            }
        } else {
            Some((t, p2))
        },
    }
}

/// The whole type string: a `Type` that consumes the input entirely.
pub open spec fn sp_type(s: Seq<char>) -> Option<PTypeV> {
    match sp_ty(s, 0) {
        Some((t, p)) => if p == s.len() {
            Some(t)
        } else {
            None
        },
        None => None,
    }
}

/// `scan_key` stays within bounds.
proof fn lemma_scan_key_bounds(s: Seq<char>, i: int)
    requires
        0 <= i <= s.len(),
    ensures
        i <= scan_key(s, i) <= s.len(),
    decreases s.len() - i,
{
    if i < s.len() && is_key_char(s[i]) {
        lemma_scan_key_bounds(s, i + 1);
    }
}

/// `scan_tws` stays within bounds.
proof fn lemma_scan_tws_bounds(s: Seq<char>, i: int)
    requires
        0 <= i <= s.len(),
    ensures
        i <= scan_tws(s, i) <= s.len(),
    decreases s.len() - i,
{
    if i < s.len() && is_type_ws(s[i]) {
        lemma_scan_tws_bounds(s, i + 1);
    }
}

/// What `NonUnion` yields is well formed, is not a union, and ends past
/// where it began.
proof fn lemma_nonunion_wf(s: Seq<char>, pos: int)
    requires
        0 <= pos <= s.len(),
    ensures
        match sp_nonunion(s, pos) {
            Some((t, p)) => ptype_wf(t) && !(t is OneOf) && pos < p <= s.len(),
            None => true,
        },
    decreases s.len() - pos, 1int,
{
    if pos < s.len() && s[pos] == '[' {
        lemma_ty_wf(s, pos + 1);
    }
    if sp_nonunion(s, pos) is Some {
        match sp_dict_end(s, pos) {
            Some(_) => {
                if pos < s.len() && s[pos] == '{' {
                    lemma_scan_tws_bounds(s, pos + 1);
                    let a = scan_tws(s, pos + 1);
                    lemma_scan_key_bounds(s, a);
                    let b = scan_key(s, a);
                    if b > a && b < s.len() {
                        lemma_scan_tws_bounds(s, b);
                        let c = scan_tws(s, b);
                        if c < s.len() && s[c] == ':' {
                            lemma_scan_tws_bounds(s, c + 1);
                            let d = scan_tws(s, c + 1);
                            lemma_scan_key_bounds(s, d);
                        }
                    }
                }
            },
            None => {
                lemma_scan_key_bounds(s, pos);
                if pos < s.len() && s[pos] == '`' {
                    lemma_scan_key_bounds(s, pos + 1);
                }
            },
        }
    }
}

/// Every member the separated repetition yields is well formed and not a
/// union, and the repetition never moves backwards.
proof fn lemma_more_wf(s: Seq<char>, pos: int)
    requires
        0 <= pos <= s.len(),
    ensures
        ({
            let r = sp_more(s, pos);
            ptypes_wf_nonunion(r.0) && pos <= r.1 <= s.len()
        }),
    decreases s.len() - pos, 0int,
{
    let r = sp_more(s, pos);
    let a = scan_tws(s, pos);
    lemma_scan_tws_bounds(s, pos);
    if a < s.len() && s[a] == '|' {
        let b = scan_tws(s, a + 1);
        lemma_scan_tws_bounds(s, a + 1);
        if pos < b && b <= s.len() {
            lemma_nonunion_wf(s, b);
            match sp_nonunion(s, b) {
                Some((t, p2)) => if b < p2 && p2 <= s.len() {
                    lemma_more_wf(s, p2);
                    let rest = sp_more(s, p2);
                    assert((seq![t] + rest.0).drop_first() =~= rest.0);
                } else {
                },
                None => {},
            }
        }
    }
    assert(ptypes_wf_nonunion(r.0));
}

/// What `Type` yields is well formed and ends past where it began.
proof fn lemma_ty_wf(s: Seq<char>, pos: int)
    requires
        0 <= pos <= s.len(),
    ensures
        match sp_ty(s, pos) {
            Some((t, p)) => ptype_wf(t) && pos < p <= s.len(),
            None => true,
        },
    decreases s.len() - pos, 2int,
{
    lemma_nonunion_wf(s, pos);
    match sp_nonunion(s, pos) {
        None => {},
        Some((t, p2)) => {
            if pos < p2 && p2 <= s.len() {
                lemma_more_wf(s, p2);
                let r = sp_more(s, p2);
                if r.0.len() > 0 {
                    assert((seq![t] + r.0).drop_first() =~= r.0);
                    assert(ptypes_wf_nonunion(seq![t] + r.0));
                }
            }
        },
    }
}

/// Every union the type parser produces has at least two members, and no
/// member of a union is itself a union.
pub proof fn lemma_parse_type_wf(s: Seq<char>)
    ensures
        match sp_type(s) {
            Some(t) => ptype_wf(t),
            None => true,
        },
{
    lemma_ty_wf(s, 0);
}

/// The type parser is a pure function of the input string: `parse_type`
/// returns exactly `sp_type` of the input's characters, so equal inputs
/// give structurally equal results on every call.
pub proof fn lemma_parse_type_deterministic(s1: Seq<char>, s2: Seq<char>)
    requires
        s1 == s2,
    ensures
        sp_type(s1) == sp_type(s2),
{
}

/// Whether `c` may stand in a key (executable form of `is_key_char`).
fn key_char(c: char) -> (r: bool)
    ensures
        r == is_key_char(c),
{
    let u = c as u32;
    (97 <= u && u <= 122) || (65 <= u && u <= 90) || (48 <= u && u <= 57) || c == '.' || c == '_'
}

/// Whether `c` is type whitespace (executable form of `is_type_ws`).
fn type_ws_char(c: char) -> (r: bool)
    ensures
        r == is_type_ws(c),
{
    c == ' ' || c == '\n'
}

/// End of the run of key characters starting at `from`.
fn scan_key_x(v: &Vec<char>, from: usize) -> (e: usize)
    requires
        from <= v@.len(),
    ensures
        e == scan_key(v@, from as int),
        from <= e <= v@.len(),
{
    let mut i = from;
    while i < v.len() && key_char(v[i])
        invariant
            from <= i <= v@.len(),
            scan_key(v@, from as int) == scan_key(v@, i as int),
        decreases v@.len() - i,
    {
        i = i + 1;
    }
    i
}

/// End of the run of type whitespace starting at `from`.
fn scan_tws_x(v: &Vec<char>, from: usize) -> (e: usize)
    requires
        from <= v@.len(),
    ensures
        e == scan_tws(v@, from as int),
        from <= e <= v@.len(),
{
    let mut i = from;
    while i < v.len() && type_ws_char(v[i])
        invariant
            from <= i <= v@.len(),
            scan_tws(v@, from as int) == scan_tws(v@, i as int),
        decreases v@.len() - i,
    {
        i = i + 1;
    }
    i
}

/// Whether `v[from..to]` contains a dot.
fn range_has_dot(v: &Vec<char>, from: usize, to: usize) -> (r: bool)
    requires
        from <= to <= v@.len(),
    ensures
        r == has_dot(v@.subrange(from as int, to as int)),
{
    let ghost s = v@.subrange(from as int, to as int);
    let mut i = from;
    while i < to
        invariant
            from <= i <= to <= v@.len(),
            s == v@.subrange(from as int, to as int),
            forall|k: int| 0 <= k < i - from ==> s[k] != '.',
        decreases to - i,
    {
        if v[i] == '.' {
            proof {
                assert(s[i - from] == '.');
            }
            return true;
        }
        proof {
            assert(s[i - from] == v@[i as int]);
        }
        i = i + 1;
    }
    false
}

/// Parses the `Dict` rule, yielding the position after the closing brace.
fn p_dict_end(v: &Vec<char>, pos: usize) -> (r: Option<usize>)
    requires
        pos <= v@.len(),
    ensures
        match r {
            Some(e) => sp_dict_end(v@, pos as int) == Some(e as int) && pos < e <= v@.len(),
            None => sp_dict_end(v@, pos as int) is None,
        },
{
    if pos < v.len() && v[pos] == '{' {
        let a = scan_tws_x(v, pos + 1);
        let b = scan_key_x(v, a);
        if b > a && b < v.len() {
            let c = scan_tws_x(v, b);
            if c < v.len() && v[c] == ':' {
                let d = scan_tws_x(v, c + 1);
                let e = scan_key_x(v, d);
                if e > d && e < v.len() && v[e] == '}' {
                    Some(e + 1)
                } else {
                    None
                }
            } else {
                None
            }
        } else {
            None
        }
    } else {
        None
    }
}

/// Parses the `Constant` rule.
fn p_constant(v: &Vec<char>, pos: usize) -> (r: Option<(PropertyType, usize)>)
    requires
        pos <= v@.len(),
    ensures
        match r {
            Some(tp) => sp_constant(v@, pos as int) == Some((ptype_view(tp.0), tp.1 as int)) && pos
                < tp.1 <= v@.len(),
            None => sp_constant(v@, pos as int) is None,
        },
{
    if pos < v.len() && v[pos] == '`' {
        let e = scan_key_x(v, pos + 1);
        if e > pos + 1 && e < v.len() && v[e] == '`' {
            Some((PropertyType::Constant(string_from_range(v, pos + 1, e)), e + 1))
        } else {
            None
        }
    } else {
        None
    }
}

/// Parses the `Reference` rule, normalizing dotted identifiers to the
/// generic string reference.
fn p_ref(v: &Vec<char>, pos: usize) -> (r: Option<(PropertyType, usize)>)
    requires
        pos <= v@.len(),
    ensures
        match r {
            Some(tp) => sp_ref(v@, pos as int) == Some((ptype_view(tp.0), tp.1 as int)) && pos
                < tp.1 <= v@.len(),
            None => sp_ref(v@, pos as int) is None,
        },
{
    let e = scan_key_x(v, pos);
    if e > pos {
        let name = if range_has_dot(v, pos, e) {
            "string".to_owned()
        } else {
            string_from_range(v, pos, e)
        };
        Some((PropertyType::Ref(name), e))
    } else {
        None
    }
}

/// Parses the `NonUnion` rule.
fn p_nonunion(v: &Vec<char>, pos: usize) -> (r: Option<(PropertyType, usize)>)
    requires
        pos <= v@.len(),
    ensures
        match r {
            Some(tp) => sp_nonunion(v@, pos as int) == Some((ptype_view(tp.0), tp.1 as int)) && pos
                < tp.1 <= v@.len(),
            None => sp_nonunion(v@, pos as int) is None,
        },
    decreases v@.len() - pos, 1int,
{
    let arr: Option<(PropertyType, usize)> = if pos < v.len() && v[pos] == '[' {
        match p_ty(v, pos + 1) {
            Some((t, p2)) => {
                if p2 < v.len() && v[p2] == ']' {
                    Some((PropertyType::ArrayOf(Box::new(t)), p2 + 1))
                } else {
                    None
                }
            },
            None => None,
        }
    } else {
        None
    };
    match arr {
        Some(r) => Some(r),
        None => match p_dict_end(v, pos) {
            Some(e) => Some((PropertyType::Dict, e)),
            None => match p_constant(v, pos) {
                Some(r) => Some(r),
                None => p_ref(v, pos),
            },
        },
    }
}

/// Parses the separated repetition of further union members.
fn p_more(v: &Vec<char>, pos: usize) -> (r: (Vec<PropertyType>, usize))
    requires
        pos <= v@.len(),
    ensures
        ({
            let s = sp_more(v@, pos as int);
            ptypes_view(r.0@) == s.0 && r.1 as int == s.1 && pos <= r.1 <= v@.len()
        }),
    decreases v@.len() - pos, 0int,
{
    let a = scan_tws_x(v, pos);
    if a < v.len() && v[a] == '|' {
        let b = scan_tws_x(v, a + 1);
        match p_nonunion(v, b) {
            Some((t, p2)) => {
                let (mut rest, p3) = p_more(v, p2);
                let ghost rest0 = rest@;
                rest.insert(0, t);
                proof {
                    assert(rest@.drop_first() =~= rest0);
                }
                (rest, p3)
            },
            None => {
                proof {
                    assert(ptypes_view(Seq::<PropertyType>::empty())
                        =~= Seq::<PTypeV>::empty());
                }
                (Vec::new(), pos)
            },
        }
    } else {
        proof {
            assert(ptypes_view(Seq::<PropertyType>::empty()) =~= Seq::<PTypeV>::empty());
        }
        (Vec::new(), pos)
    }
}

/// Parses the `Type` rule, collapsing a single member to itself.
fn p_ty(v: &Vec<char>, pos: usize) -> (r: Option<(PropertyType, usize)>)
    requires
        pos <= v@.len(),
    ensures
        match r {
            Some(tp) => sp_ty(v@, pos as int) == Some((ptype_view(tp.0), tp.1 as int)) && pos
                < tp.1 <= v@.len(),
            None => sp_ty(v@, pos as int) is None,
        },
    decreases v@.len() - pos, 2int,
{
    match p_nonunion(v, pos) {
        None => None,
        Some((t, p2)) => {
            let (mut more, p3) = p_more(v, p2);
            if more.len() == 0 {
                proof {
                    assert(ptypes_view(more@).len() == 0);
                }
                Some((t, p2))
            } else {
                let ghost gt = t;
                let ghost more0 = more@;
                more.insert(0, t);
                proof {
                    assert(more@.drop_first() =~= more0);
                    assert(more@[0] == gt);
                    assert(ptypes_view(more@) =~= seq![ptype_view(gt)] + ptypes_view(more0));
                }
                Some((PropertyType::OneOf(more), p3))
            }
        },
    }
}

/// Parses one attribute's type string, already extracted as raw text.
///
/// Yields exactly what the grammar `sp_type` gives: the parsed type where
/// the grammar covers the whole string, and nothing otherwise. The result
/// is well formed: every union in it has at least two members, none itself
/// a union. A failure is a fatal authoring error that the extractor turns
/// into a type syntax error for the whole run.
pub fn parse_type_chars(v: &Vec<char>) -> (r: Option<PropertyType>)
    ensures
        match r {
            Some(t) => sp_type(v@) == Some(ptype_view(t)) && ptype_wf(ptype_view(t)),
            None => sp_type(v@) is None,
        },
{
    proof {
        lemma_parse_type_wf(v@);
    }
    match p_ty(v, 0) {
        Some((t, p)) => {
            if p == v.len() {
                Some(t)
            } else {
                None
            }
        },
        None => None,
    }
}

/// `parse_type_chars`, taking the type string as a `&str`.
pub fn parse_type(s: &str) -> (r: Option<PropertyType>)
    ensures
        match r {
            Some(t) => sp_type(s@) == Some(ptype_view(t)) && ptype_wf(ptype_view(t)),
            None => sp_type(s@) is None,
        },
{
    let v = str_chars(s);
    parse_type_chars(&v)
}

} // verus!
