//! The schema extractor: walks a parsed document, recognizes the annotation
//! calls that declare schemas, schema groups and attributes, and assembles
//! the schema model.
//!
//! The walk has two modes. The free mode looks for the next `schema` or
//! `schema-group` call anywhere in the tree; an attribute call met there is
//! orphaned: it becomes a synthetic single-property schema whose name is the
//! reserved orphan prefix followed by the attribute's name. The bounded mode
//! walks a recognized schema's property list: an attribute call there
//! contributes one property to that schema, a schema call is a nested
//! declaration, and any other call's arguments are walked in free mode, so
//! that schemas declared deeper down are still found. The documentation
//! argument of every attribute is scanned in free mode too.
//!
//! A schema declared anywhere inside a group's subtree is marked as part of
//! a group, and the group records the names of all such schemas, discovered
//! anywhere in its subtree, as its members.
//!
//! A recognized call with too few arguments is a structural error; a type
//! string the type grammar does not cover is a type syntax error. Either
//! aborts the whole extraction.

use vstd::prelude::*;

use crate::lit::types::{
    args_view, doc_view, lemma_args_view, lemma_doc_view, node_view, raw_text_view, LitDocument,
    LitNode, NodeV,
};
use crate::render::{raw_text, sp_markdown, text_to_markdown};
use crate::schema::types::{
    lemma_props_view, lemma_props_view_concat, lemma_schemas_view, lemma_schemas_view_concat,
    lemma_strings_view, prop_view, props_keys_unique, props_view, schema_view, schemas_view,
    strings_view, Property, PropertyV, Schema, SchemaV,
};
use crate::text::{str_chars, str_eq, string_of_chars, trim_range, trim_spec};
use crate::typeexpr::{parse_type_chars, sp_type};

verus! {

/// An error that aborts the extraction: a type string the type grammar does
/// not cover (carrying that string), or a recognized call with too few
/// arguments (carrying the call's name).
#[derive(Debug, PartialEq, Eq)]
pub enum ExtractError {
    TypeSyntax(String),
    Structure(String),
}

/// Model of an extraction error.
pub enum ExtractErrV {
    TypeSyntax(Seq<char>),
    Structure(Seq<char>),
}

/// The model of an extraction error.
pub open spec fn err_view(e: ExtractError) -> ExtractErrV {
    match e {
        ExtractError::TypeSyntax(s) => ExtractErrV::TypeSyntax(s@),
        ExtractError::Structure(s) => ExtractErrV::Structure(s@),
    }
}

/// The characters that slug normalization turns into underscores.
pub open spec fn slug_map(s: Seq<char>) -> Seq<char> {
    Seq::new(
        s.len(),
        |i: int|
            if s[i] == '`' || s[i] == '-' || s[i] == ' ' {
                '_'
            } else {
                s[i]
            },
    )
}

/// One left-to-right pass collapsing each non-overlapping pair of
/// underscores into one.
pub open spec fn collapse_uu(s: Seq<char>) -> Seq<char>
    decreases s.len(),
{
    if s.len() >= 2 && s[0] == '_' && s[1] == '_' {
        seq!['_'] + collapse_uu(s.skip(2))
    } else if s.len() > 0 {
        seq![s[0]] + collapse_uu(s.skip(1))
    } else {
        seq![]
    }
}

/// The string without its leading underscores.
pub open spec fn strip_leading_u(s: Seq<char>) -> Seq<char>
    decreases s.len(),
{
    if s.len() > 0 && s[0] == '_' {
        strip_leading_u(s.skip(1))
    } else {
        s
    }
}

/// Slug normalization of a schema name: trim, turn backticks, hyphens and
/// spaces into underscores, collapse double underscores once, and strip the
/// leading underscores.
pub open spec fn slug(s: Seq<char>) -> Seq<char> {
    strip_leading_u(collapse_uu(slug_map(trim_spec(s))))
}

/// The string with every hyphen turned into an underscore.
pub open spec fn dash_to_underscore(s: Seq<char>) -> Seq<char> {
    Seq::new(
        s.len(),
        |i: int|
            if s[i] == '-' {
                '_'
            } else {
                s[i]
            },
    )
}

/// First index at which the property list holds the name.
pub open spec fn find_key(ps: Seq<(Seq<char>, PropertyV)>, k: Seq<char>) -> Option<int>
    decreases ps,
{
    if ps.len() == 0 {
        None
    } else if ps[0].0 == k {
        Some(0)
    } else {
        match find_key(ps.drop_first(), k) {
            Some(i) => Some(i + 1),
            None => None,
        }
    }
}

/// The property list with one more entry: a new name is appended, and the
/// entry of a name already present is replaced in place, so that the last
/// declaration of a name wins while the first one keeps its position.
pub open spec fn upsert(
    ps: Seq<(Seq<char>, PropertyV)>,
    p: (Seq<char>, PropertyV),
) -> Seq<(Seq<char>, PropertyV)> {
    match find_key(ps, p.0) {
        Some(i) => ps.update(i, p),
        None => ps.push(p),
    }
}

/// The property entries folded into a list with unique names.
pub open spec fn dedup_props(
    acc: Seq<(Seq<char>, PropertyV)>,
    ps: Seq<(Seq<char>, PropertyV)>,
) -> Seq<(Seq<char>, PropertyV)>
    decreases ps,
{
    if ps.len() == 0 {
        acc
    } else {
        dedup_props(upsert(acc, ps[0]), ps.drop_first())
    }
}

/// The names of the schemas that are part of a group, in discovery order.
pub open spec fn member_names(ss: Seq<SchemaV>) -> Seq<Seq<char>>
    decreases ss,
{
    if ss.len() == 0 {
        seq![]
    } else {
        (if ss[0].part_of_group {
            seq![ss[0].schema_name]
        } else {
            seq![]
        }) + member_names(ss.drop_first())
    }
}

/// The reserved prefix that names an orphaned attribute's synthetic schema.
pub open spec fn orphan_prefix() -> Seq<char> {
    "$orphaned:"@
}

/// Free traversal of a node list: the schemas declared in it, in document
/// order. `g` says whether the list stands inside a group's subtree.
pub open spec fn sp_free(nodes: Seq<NodeV>, g: bool) -> Result<Seq<SchemaV>, ExtractErrV>
    decreases nodes, 1int,
{
    if nodes.len() == 0 {
        Ok(seq![])
    } else {
        match sp_free_node(nodes[0], g) {
            Err(e) => Err(e),
            Ok(head) => match sp_free(nodes.drop_first(), g) {
                Err(e) => Err(e),
                Ok(rest) => Ok(head + rest),
            },
        }
    }
}

/// Free traversal of one node.
pub open spec fn sp_free_node(n: NodeV, g: bool) -> Result<Seq<SchemaV>, ExtractErrV>
    decreases n, 0int,
{
    match n {
        NodeV::Text(_) => Ok(seq![]),
        NodeV::Comment(_) => Ok(seq![]),
        NodeV::Fn(name, args) => {
            if name == "schema"@ || name == "schema-group"@ {
                sp_schema(name, args, g)
            } else if name == "required-attribute"@ || name == "optional-attribute"@ {
                match sp_prop(name, args, g) {
                    Err(e) => Err(e),
                    Ok((entry, inner)) => Ok(
                        seq![
                            SchemaV {
                                schema_name: orphan_prefix() + entry.0,
                                part_of_group: false,
                                group_members: seq![],
                                properties: seq![entry],
                            },
                        ] + inner,
                    ),
                }
            } else {
                sp_free_args(args, g)
            }
        },
    }
}

/// Free traversal of an argument list.
pub open spec fn sp_free_args(args: Seq<Seq<NodeV>>, g: bool) -> Result<Seq<SchemaV>, ExtractErrV>
    decreases args, 2int,
{
    if args.len() == 0 {
        Ok(seq![])
    } else {
        match sp_free(args[0], g) {
            Err(e) => Err(e),
            Ok(head) => match sp_free_args(args.drop_first(), g) {
                Err(e) => Err(e),
                Ok(rest) => Ok(head + rest),
            },
        }
    }
}

/// One attribute call: its property entry, and the schemas found in its
/// documentation argument. The property's name and documentation are
/// markdown-rendered and trimmed; its type string is the raw text of the
/// type argument, trimmed, with hyphens turned into underscores, and must
/// be covered by the type grammar; the list flag records whether the type
/// string starts with `[`.
pub open spec fn sp_prop(name: Seq<char>, args: Seq<Seq<NodeV>>, g: bool) -> Result<
    ((Seq<char>, PropertyV), Seq<SchemaV>),
    ExtractErrV,
>
    decreases args, 2int,
{
    if args.len() < 3 {
        Err(ExtractErrV::Structure(name))
    } else {
        let prop_name = trim_spec(sp_markdown(args[0]));
        let raw_ty = trim_spec(raw_text_view(args[1]));
        let ty_str = dash_to_underscore(raw_ty);
        match sp_type(ty_str) {
            None => Err(ExtractErrV::TypeSyntax(ty_str)),
            Some(ty) => match sp_free(args[2], g) {
                Err(e) => Err(e),
                Ok(inner) => Ok(
                    (
                        (
                            prop_name,
                            PropertyV {
                                prop_type: ty,
                                required: name == "required-attribute"@,
                                list: raw_ty.len() > 0 && raw_ty[0] == '[',
                                docs: trim_spec(sp_markdown(args[2])),
                            },
                        ),
                        inner,
                    ),
                ),
            },
        }
    }
}

/// A schema or schema-group call. The name argument is markdown-rendered
/// and slug-normalized. The property-list argument (the second for a
/// schema, the third for a group) is walked in bounded mode; every other
/// argument is walked in free mode, in order. A group's subtree is walked
/// with the group flag set, and the names of the part-of-group schemas it
/// declares become the group's members.
pub open spec fn sp_schema(name: Seq<char>, args: Seq<Seq<NodeV>>, g: bool) -> Result<
    Seq<SchemaV>,
    ExtractErrV,
>
    decreases args, 4int,
{
    let is_group = name == "schema-group"@;
    let pidx: int = if is_group {
        2
    } else {
        1
    };
    if args.len() <= pidx {
        Err(ExtractErrV::Structure(name))
    } else {
        let sub_g = g || is_group;
        match sp_schema_args(args, pidx, sub_g) {
            Err(e) => Err(e),
            Ok((props, found)) => Ok(
                found + seq![
                    SchemaV {
                        schema_name: slug(sp_markdown(args[0])),
                        part_of_group: g,
                        group_members: if is_group {
                            member_names(found)
                        } else {
                            seq![]
                        },
                        properties: dedup_props(seq![], props),
                    },
                ],
            ),
        }
    }
}

/// The arguments of a schema call, walked in order: the one at `pidx` in
/// bounded mode, every other one in free mode. Yields the properties of the
/// bounded argument and all schemas found.
pub open spec fn sp_schema_args(args: Seq<Seq<NodeV>>, pidx: int, g: bool) -> Result<
    (Seq<(Seq<char>, PropertyV)>, Seq<SchemaV>),
    ExtractErrV,
>
    decreases args, 3int,
{
    if args.len() == 0 {
        Ok((seq![], seq![]))
    } else {
        let head: Result<(Seq<(Seq<char>, PropertyV)>, Seq<SchemaV>), ExtractErrV> = if pidx
            == 0 {
            sp_bounded(args[0], g)
        } else {
            match sp_free(args[0], g) {
                Err(e) => Err(e),
                Ok(ss) => Ok((seq![], ss)),
            }
        };
        match head {
            Err(e) => Err(e),
            Ok((hp, hs)) => match sp_schema_args(args.drop_first(), pidx - 1, g) {
                Err(e) => Err(e),
                Ok((rp, rs)) => Ok((hp + rp, hs + rs)),
            },
        }
    }
}

/// Bounded traversal of a schema's property list: attribute calls become
/// properties of the enclosing schema; schema calls are declarations; any
/// other call's arguments are walked in free mode.
pub open spec fn sp_bounded(nodes: Seq<NodeV>, g: bool) -> Result<
    (Seq<(Seq<char>, PropertyV)>, Seq<SchemaV>),
    ExtractErrV,
>
    decreases nodes, 1int,
{
    if nodes.len() == 0 {
        Ok((seq![], seq![]))
    } else {
        match sp_bounded_node(nodes[0], g) {
            Err(e) => Err(e),
            Ok((hp, hs)) => match sp_bounded(nodes.drop_first(), g) {
                Err(e) => Err(e),
                Ok((rp, rs)) => Ok((hp + rp, hs + rs)),
            },
        }
    }
}

/// Bounded traversal of one node.
pub open spec fn sp_bounded_node(n: NodeV, g: bool) -> Result<
    (Seq<(Seq<char>, PropertyV)>, Seq<SchemaV>),
    ExtractErrV,
>
    decreases n, 0int,
{
    match n {
        NodeV::Text(_) => Ok((seq![], seq![])),
        NodeV::Comment(_) => Ok((seq![], seq![])),
        NodeV::Fn(name, args) => {
            if name == "required-attribute"@ || name == "optional-attribute"@ {
                match sp_prop(name, args, g) {
                    Err(e) => Err(e),
                    Ok((entry, inner)) => Ok((seq![entry], inner)),
                }
            } else if name == "schema"@ || name == "schema-group"@ {
                match sp_schema(name, args, g) {
                    Err(e) => Err(e),
                    Ok(ss) => Ok((seq![], ss)),
                }
            } else {
                match sp_free_args(args, g) {
                    Err(e) => Err(e),
                    Ok(ss) => Ok((seq![], ss)),
                }
            }
        },
    }
}

/// The whole extraction: free traversal of the document, outside any group.
pub open spec fn sp_extract(doc: Seq<NodeV>) -> Result<Seq<SchemaV>, ExtractErrV> {
    sp_free(doc, false)
}

/// Whether the list holds a part-of-group schema of the given name.
pub open spec fn has_member_schema(ss: Seq<SchemaV>, name: Seq<char>) -> bool {
    exists|k: int|
        0 <= k < ss.len() && (#[trigger] ss[k]).part_of_group && ss[k].schema_name == name
}

/// What holds of every schema list the extractor yields: every name in any
/// schema's group members is the name of a part-of-group schema in the same
/// list, and no schema holds two properties of one name.
pub open spec fn schemas_wf(ss: Seq<SchemaV>) -> bool {
    (forall|i: int, j: int|
        #![trigger ss[i].group_members[j]]
        0 <= i < ss.len() && 0 <= j < ss[i].group_members.len() ==> has_member_schema(
            ss,
            ss[i].group_members[j],
        )) && (forall|i: int|
        0 <= i < ss.len() ==> props_keys_unique(#[trigger] ss[i].properties))
}

/// Well-formedness is closed under concatenation.
proof fn lemma_wf_concat(a: Seq<SchemaV>, b: Seq<SchemaV>)
    requires
        schemas_wf(a),
        schemas_wf(b),
    ensures
        schemas_wf(a + b),
{
    assert forall|i: int, j: int|
        #![trigger (a + b)[i].group_members[j]]
        0 <= i < (a + b).len() && 0 <= j < (a + b)[i].group_members.len() implies has_member_schema(
        a + b,
        (a + b)[i].group_members[j],
    ) by {
        if i < a.len() {
            assert((a + b)[i] == a[i]);
            assert(a[i].group_members[j] == (a + b)[i].group_members[j]);
            assert(has_member_schema(a, a[i].group_members[j]));
            let k = choose|k: int|
                0 <= k < a.len() && (#[trigger] a[k]).part_of_group && a[k].schema_name
                    == a[i].group_members[j];
            assert((a + b)[k] == a[k]);
        } else {
            assert((a + b)[i] == b[i - a.len()]);
            assert(b[i - a.len()].group_members[j] == (a + b)[i].group_members[j]);
            assert(has_member_schema(b, b[i - a.len()].group_members[j]));
            let k = choose|k: int|
                0 <= k < b.len() && (#[trigger] b[k]).part_of_group && b[k].schema_name == b[i
                    - a.len()].group_members[j];
            assert((a + b)[k + a.len()] == b[k]);
        }
    }
    assert forall|i: int| 0 <= i < (a + b).len() implies props_keys_unique(
        #[trigger] (a + b)[i].properties,
    ) by {
        if i < a.len() {
            assert((a + b)[i] == a[i]);
        } else {
            assert((a + b)[i] == b[i - a.len()]);
        }
    }
}

/// The empty schema list is well formed.
proof fn lemma_wf_empty()
    ensures
        schemas_wf(Seq::<SchemaV>::empty()),
{
}

/// Every name that `member_names` collects belongs to a part-of-group
/// schema of the list.
proof fn lemma_member_names_witness(ss: Seq<SchemaV>)
    ensures
        forall|j: int|
            #![trigger member_names(ss)[j]]
            0 <= j < member_names(ss).len() ==> has_member_schema(ss, member_names(ss)[j]),
    decreases ss,
{
    if ss.len() > 0 {
        let rest = ss.drop_first();
        lemma_member_names_witness(rest);
        assert forall|j: int|
            #![trigger member_names(ss)[j]]
            0 <= j < member_names(ss).len() implies has_member_schema(
            ss,
            member_names(ss)[j],
        ) by {
            if ss[0].part_of_group && j == 0 {
                assert(ss[0].part_of_group && ss[0].schema_name == member_names(ss)[0]);
            } else {
                let jr: int = if ss[0].part_of_group {
                    j - 1
                } else {
                    j
                };
                assert(member_names(ss)[j] == member_names(rest)[jr]);
                assert(has_member_schema(rest, member_names(rest)[jr]));
                let k = choose|k: int|
                    0 <= k < rest.len() && (#[trigger] rest[k]).part_of_group
                        && rest[k].schema_name == member_names(rest)[jr];
                assert(ss[k + 1] == rest[k]);
                assert(ss[k + 1].part_of_group && ss[k + 1].schema_name == member_names(ss)[j]);
            }
        }
    }
}

/// `upsert` keeps the property names unique.
proof fn lemma_upsert_unique(ps: Seq<(Seq<char>, PropertyV)>, p: (Seq<char>, PropertyV))
    requires
        props_keys_unique(ps),
    ensures
        props_keys_unique(upsert(ps, p)),
{
    lemma_find_key(ps, p.0);
    match find_key(ps, p.0) {
        Some(i) => {
            let out = ps.update(i, p);
            assert forall|x: int, y: int| 0 <= x < y < out.len() implies out[x].0
                != out[y].0 by {
                if x != i && y != i {
                    assert(out[x] == ps[x] && out[y] == ps[y]);
                } else if x == i {
                    assert(out[y] == ps[y]);
                    assert(ps[i].0 == p.0);
                } else {
                    assert(out[x] == ps[x]);
                    assert(ps[i].0 == p.0);
                }
            }
        },
        None => {
            let out = ps.push(p);
            assert forall|x: int, y: int| 0 <= x < y < out.len() implies out[x].0
                != out[y].0 by {
                if y < ps.len() {
                    assert(out[x] == ps[x] && out[y] == ps[y]);
                } else {
                    assert(out[x] == ps[x] && out[y] == p);
                }
            }
        },
    }
}

/// `dedup_props` keeps the property names unique.
proof fn lemma_dedup_unique(acc: Seq<(Seq<char>, PropertyV)>, ps: Seq<(Seq<char>, PropertyV)>)
    requires
        props_keys_unique(acc),
    ensures
        props_keys_unique(dedup_props(acc, ps)),
    decreases ps,
{
    if ps.len() > 0 {
        lemma_upsert_unique(acc, ps[0]);
        lemma_dedup_unique(upsert(acc, ps[0]), ps.drop_first());
    }
}

/// Each attribute contributes exactly one property: a list of entries whose
/// names are pairwise distinct passes through deduplication unchanged, one
/// entry per attribute, in declaration order. (Two attributes of one name
/// in one property list collapse to the later one instead.)
pub proof fn lemma_dedup_identity(acc: Seq<(Seq<char>, PropertyV)>, ps: Seq<(Seq<char>, PropertyV)>)
    requires
        props_keys_unique(acc + ps),
    ensures
        dedup_props(acc, ps) == acc + ps,
    decreases ps,
{
    if ps.len() == 0 {
        assert(acc + ps =~= acc);
    } else {
        let c = acc + ps;
        lemma_find_key(acc, ps[0].0);
        assert forall|l: int| 0 <= l < acc.len() implies acc[l].0 != ps[0].0 by {
            assert(c[l] == acc[l] && c[acc.len() as int] == ps[0]);
        }
        assert(find_key(acc, ps[0].0) is None);
        assert(upsert(acc, ps[0]) == acc.push(ps[0]));
        assert(acc.push(ps[0]) + ps.drop_first() =~= acc + ps);
        lemma_dedup_identity(acc.push(ps[0]), ps.drop_first());
    }
}

/// Each attribute of a schema's property list contributes exactly one
/// property to that schema: where the names of the walked entries are
/// pairwise distinct, the declared schema holds exactly those entries, in
/// declaration order. (The walk yields one entry per attribute call by
/// construction; the one exception to the one-to-one claim is a repeated
/// name within a single property list, which collapses to its last
/// declaration.)
pub proof fn lemma_schema_keeps_each_attribute(name: Seq<char>, args: Seq<Seq<NodeV>>, g: bool)
    requires
        sp_schema(name, args, g) is Ok,
        props_keys_unique(
            sp_schema_args(
                args,
                if name == "schema-group"@ {
                    2int
                } else {
                    1int
                },
                g || name == "schema-group"@,
            )->Ok_0.0,
        ),
    ensures
        ({
            let walked = sp_schema_args(
                args,
                if name == "schema-group"@ {
                    2int
                } else {
                    1int
                },
                g || name == "schema-group"@,
            )->Ok_0.0;
            let out = sp_schema(name, args, g)->Ok_0;
            out.len() >= 1 && out[out.len() - 1].properties == walked
        }),
{
    let walked = sp_schema_args(
        args,
        if name == "schema-group"@ {
            2int
        } else {
            1int
        },
        g || name == "schema-group"@,
    )->Ok_0.0;
    assert(Seq::<(Seq<char>, PropertyV)>::empty() + walked =~= walked);
    lemma_dedup_identity(Seq::<(Seq<char>, PropertyV)>::empty(), walked);
    assert(seq![] + walked =~= walked);
}

/// An attribute met in free traversal contributes its property to exactly
/// one synthetic orphan schema: the first schema the node yields carries
/// the orphan prefix before the attribute's name and holds exactly that one
/// property; the node's remaining schemas come from the documentation
/// subtree alone.
pub proof fn lemma_orphan_one_property(name: Seq<char>, args: Seq<Seq<NodeV>>, g: bool)
    requires
        name == "required-attribute"@ || name == "optional-attribute"@,
        sp_prop(name, args, g) is Ok,
    ensures
        ({
            let entry = sp_prop(name, args, g)->Ok_0.0;
            let inner = sp_prop(name, args, g)->Ok_0.1;
            sp_free_node(NodeV::Fn(name, args), g) == Ok::<Seq<SchemaV>, ExtractErrV>(
                seq![
                    SchemaV {
                        schema_name: orphan_prefix() + entry.0,
                        part_of_group: false,
                        group_members: seq![],
                        properties: seq![entry],
                    },
                ] + inner,
            )
        }),
{
    reveal_strlit("schema");
    reveal_strlit("schema-group");
    reveal_strlit("required-attribute");
    reveal_strlit("optional-attribute");
    assert("schema"@.len() == 6);
    assert("schema-group"@.len() == 12);
    assert("required-attribute"@.len() == 18);
    assert("optional-attribute"@.len() == 18);
    assert(name != "schema"@ && name != "schema-group"@);
}

/// What the free traversal yields is well formed.
proof fn lemma_free_wf(nodes: Seq<NodeV>, g: bool)
    ensures
        sp_free(nodes, g) matches Ok(out) ==> schemas_wf(out),
    decreases nodes, 1int,
{
    if nodes.len() > 0 {
        lemma_free_node_wf(nodes[0], g);
        lemma_free_wf(nodes.drop_first(), g);
        if sp_free(nodes, g) is Ok {
            let h = sp_free_node(nodes[0], g)->Ok_0;
            let r = sp_free(nodes.drop_first(), g)->Ok_0;
            lemma_wf_concat(h, r);
        }
    } else {
        lemma_wf_empty();
    }
}

/// What the free traversal of one node yields is well formed.
proof fn lemma_free_node_wf(n: NodeV, g: bool)
    ensures
        sp_free_node(n, g) matches Ok(out) ==> schemas_wf(out),
    decreases n, 0int,
{
    match n {
        NodeV::Fn(name, args) => {
            if name == "schema"@ || name == "schema-group"@ {
                lemma_schema_wf(name, args, g);
            } else if name == "required-attribute"@ || name == "optional-attribute"@ {
                lemma_prop_wf(name, args, g);
                match sp_prop(name, args, g) {
                    Ok((entry, inner)) => {
                        let orphan = SchemaV {
                            schema_name: orphan_prefix() + entry.0,
                            part_of_group: false,
                            group_members: seq![],
                            properties: seq![entry],
                        };
                        assert(props_keys_unique(seq![entry]));
                        assert(schemas_wf(seq![orphan]));
                        lemma_wf_concat(seq![orphan], inner);
                    },
                    Err(_) => {},
                }
            } else {
                lemma_free_args_wf(args, g);
            }
        },
        _ => {
            lemma_wf_empty();
        },
    }
}

/// What the free traversal of an argument list yields is well formed.
proof fn lemma_free_args_wf(args: Seq<Seq<NodeV>>, g: bool)
    ensures
        sp_free_args(args, g) matches Ok(out) ==> schemas_wf(out),
    decreases args, 2int,
{
    if args.len() > 0 {
        lemma_free_wf(args[0], g);
        lemma_free_args_wf(args.drop_first(), g);
        if sp_free_args(args, g) is Ok {
            let h = sp_free(args[0], g)->Ok_0;
            let r = sp_free_args(args.drop_first(), g)->Ok_0;
            lemma_wf_concat(h, r);
        }
    } else {
        lemma_wf_empty();
    }
}

/// The schemas an attribute's documentation yields are well formed.
proof fn lemma_prop_wf(name: Seq<char>, args: Seq<Seq<NodeV>>, g: bool)
    ensures
        sp_prop(name, args, g) matches Ok(v) ==> schemas_wf(v.1),
    decreases args, 2int,
{
    if args.len() >= 3 {
        lemma_free_wf(args[2], g);
    }
}

/// What a schema declaration yields is well formed.
proof fn lemma_schema_wf(name: Seq<char>, args: Seq<Seq<NodeV>>, g: bool)
    ensures
        sp_schema(name, args, g) matches Ok(out) ==> schemas_wf(out),
    decreases args, 4int,
{
    let is_group = name == "schema-group"@;
    let pidx: int = if is_group {
        2
    } else {
        1
    };
    if args.len() > pidx {
        let sub_g = g || is_group;
        lemma_schema_args_wf(args, pidx, sub_g);
        match sp_schema_args(args, pidx, sub_g) {
            Ok((props, found)) => {
                let me = SchemaV {
                    schema_name: slug(sp_markdown(args[0])),
                    part_of_group: g,
                    group_members: if is_group {
                        member_names(found)
                    } else {
                        seq![]
                    },
                    properties: dedup_props(seq![], props),
                };
                lemma_dedup_unique(seq![], props);
                let out = found + seq![me];
                lemma_member_names_witness(found);
                assert forall|i: int, j: int|
                    #![trigger out[i].group_members[j]]
                    0 <= i < out.len() && 0 <= j < out[i].group_members.len()
                    implies has_member_schema(out, out[i].group_members[j]) by {
                    if i < found.len() {
                        assert(out[i] == found[i]);
                        assert(found[i].group_members[j] == out[i].group_members[j]);
                        assert(has_member_schema(found, found[i].group_members[j]));
                        let k = choose|k: int|
                            0 <= k < found.len() && (#[trigger] found[k]).part_of_group
                                && found[k].schema_name == found[i].group_members[j];
                        assert(out[k] == found[k]);
                    } else {
                        assert(out[i] == me);
                        assert(is_group && me.group_members == member_names(found));
                        assert(member_names(found)[j] == out[i].group_members[j]);
                        assert(has_member_schema(found, member_names(found)[j]));
                        let k = choose|k: int|
                            0 <= k < found.len() && (#[trigger] found[k]).part_of_group
                                && found[k].schema_name == member_names(found)[j];
                        assert(out[k] == found[k]);
                    }
                }
                assert forall|i: int| 0 <= i < out.len() implies props_keys_unique(
                    #[trigger] out[i].properties,
                ) by {
                    if i < found.len() {
                        assert(out[i] == found[i]);
                    } else {
                        assert(out[i] == me);
                    }
                }
                assert(schemas_wf(out));
            },
            Err(_) => {},
        }
    }
}

/// What the walk over a schema's arguments yields is well formed.
proof fn lemma_schema_args_wf(args: Seq<Seq<NodeV>>, pidx: int, g: bool)
    ensures
        sp_schema_args(args, pidx, g) matches Ok(v) ==> schemas_wf(v.1),
    decreases args, 3int,
{
    if args.len() > 0 {
        if pidx == 0 {
            lemma_bounded_wf(args[0], g);
        } else {
            lemma_free_wf(args[0], g);
        }
        lemma_schema_args_wf(args.drop_first(), pidx - 1, g);
        if sp_schema_args(args, pidx, g) is Ok {
            let hs = if pidx == 0 {
                sp_bounded(args[0], g)->Ok_0.1
            } else {
                sp_free(args[0], g)->Ok_0
            };
            let rs = sp_schema_args(args.drop_first(), pidx - 1, g)->Ok_0.1;
            lemma_wf_concat(hs, rs);
        }
    } else {
        lemma_wf_empty();
    }
}

/// What the bounded traversal yields is well formed.
proof fn lemma_bounded_wf(nodes: Seq<NodeV>, g: bool)
    ensures
        sp_bounded(nodes, g) matches Ok(v) ==> schemas_wf(v.1),
    decreases nodes, 1int,
{
    if nodes.len() > 0 {
        lemma_bounded_node_wf(nodes[0], g);
        lemma_bounded_wf(nodes.drop_first(), g);
        if sp_bounded(nodes, g) is Ok {
            let hs = sp_bounded_node(nodes[0], g)->Ok_0.1;
            let rs = sp_bounded(nodes.drop_first(), g)->Ok_0.1;
            lemma_wf_concat(hs, rs);
        }
    } else {
        lemma_wf_empty();
    }
}

/// What the bounded traversal of one node yields is well formed.
proof fn lemma_bounded_node_wf(n: NodeV, g: bool)
    ensures
        sp_bounded_node(n, g) matches Ok(v) ==> schemas_wf(v.1),
    decreases n, 0int,
{
    match n {
        NodeV::Fn(name, args) => {
            if name == "required-attribute"@ || name == "optional-attribute"@ {
                lemma_prop_wf(name, args, g);
            } else if name == "schema"@ || name == "schema-group"@ {
                lemma_schema_wf(name, args, g);
            } else {
                lemma_free_args_wf(args, g);
            }
        },
        _ => {
            lemma_wf_empty();
        },
    }
}

/// Group membership is closed, and property names are unique: in every
/// schema list the extractor yields, each name in any schema's group
/// members is the name of a part-of-group schema of the same list, and no
/// schema holds two properties of one name.
pub proof fn lemma_extract_wf(doc: Seq<NodeV>)
    ensures
        sp_extract(doc) matches Ok(out) ==> schemas_wf(out),
{
    lemma_free_wf(doc, false);
}

/// Slug normalization (executable form of `slug`).
fn slug_x(v: &Vec<char>) -> (r: Vec<char>)
    ensures
        r@ == slug(v@),
{
    let t = trim_range(v, 0, v.len());
    proof {
        assert(v@.subrange(0, v@.len() as int) =~= v@);
    }
    let n = t.len();
    let mut m: Vec<char> = Vec::new();
    let mut i: usize = 0;
    while i < n
        invariant
            i <= n == t@.len(),
            m@.len() == i,
            forall|k: int| 0 <= k < i ==> m@[k] == slug_map(t@)[k],
        decreases n - i,
    {
        let c = t[i];
        if c == '`' || c == '-' || c == ' ' {
            m.push('_');
        } else {
            m.push(c);
        }
        i = i + 1;
    }
    proof {
        assert(m@ =~= slug_map(t@));
    }
    let mut c: Vec<char> = Vec::new();
    let mut j: usize = 0;
    proof {
        assert(m@.skip(0) =~= m@);
        assert(c@ + collapse_uu(m@) =~= collapse_uu(m@));
    }
    while j < n
        invariant
            j <= n == m@.len(),
            collapse_uu(m@) == c@ + collapse_uu(m@.skip(j as int)),
        decreases n - j,
    {
        let ghost pre = c@;
        let ghost suf = m@.skip(j as int);
        if m[j] == '_' && j + 1 < n && m[j + 1] == '_' {
            c.push('_');
            proof {
                assert(suf[0] == m@[j as int] && suf[1] == m@[j + 1]);
                assert(suf.skip(2) =~= m@.skip(j + 2));
                assert(c@ + collapse_uu(m@.skip(j + 2)) =~= pre + collapse_uu(suf));
            }
            j = j + 2;
        } else {
            c.push(m[j]);
            proof {
                assert(suf[0] == m@[j as int]);
                if suf.len() >= 2 {
                    assert(suf[1] == m@[j + 1]);
                }
                assert(suf.skip(1) =~= m@.skip(j + 1));
                assert(c@ + collapse_uu(m@.skip(j + 1)) =~= pre + collapse_uu(suf));
            }
            j = j + 1;
        }
    }
    proof {
        assert(collapse_uu(m@.skip(j as int)) =~= Seq::<char>::empty());
        assert(c@ =~= collapse_uu(m@));
    }
    let cn = c.len();
    let mut a: usize = 0;
    proof {
        assert(c@.skip(0) =~= c@);
    }
    while a < cn && c[a] == '_'
        invariant
            a <= cn == c@.len(),
            strip_leading_u(c@) == strip_leading_u(c@.skip(a as int)),
        decreases cn - a,
    {
        proof {
            assert(c@.skip(a as int)[0] == c@[a as int]);
            assert(c@.skip(a as int).skip(1) =~= c@.skip(a + 1));
        }
        a = a + 1;
    }
    proof {
        assert(strip_leading_u(c@.skip(a as int)) =~= c@.skip(a as int));
    }
    let mut out: Vec<char> = Vec::new();
    let mut k = a;
    while k < cn
        invariant
            a <= k <= cn == c@.len(),
            out@ == c@.subrange(a as int, k as int),
        decreases cn - k,
    {
        out.push(c[k]);
        k = k + 1;
        proof {
            assert(out@ =~= c@.subrange(a as int, k as int));
        }
    }
    proof {
        assert(out@ =~= c@.skip(a as int));
    }
    out
}

/// Every hyphen turned into an underscore (executable form of
/// `dash_to_underscore`).
fn dash_x(v: &Vec<char>) -> (r: Vec<char>)
    ensures
        r@ == dash_to_underscore(v@),
{
    let n = v.len();
    let mut out: Vec<char> = Vec::new();
    let mut i: usize = 0;
    while i < n
        invariant
            i <= n == v@.len(),
            out@.len() == i,
            forall|k: int| 0 <= k < i ==> out@[k] == dash_to_underscore(v@)[k],
        decreases n - i,
    {
        if v[i] == '-' {
            out.push('_');
        } else {
            out.push(v[i]);
        }
        i = i + 1;
    }
    proof {
        assert(out@ =~= dash_to_underscore(v@));
    }
    out
}

/// `find_key` names the first occurrence, and nothing where there is none.
proof fn lemma_find_key(ps: Seq<(Seq<char>, PropertyV)>, k: Seq<char>)
    ensures
        match find_key(ps, k) {
            Some(i) => 0 <= i < ps.len() && ps[i].0 == k && forall|l: int|
                0 <= l < i ==> ps[l].0 != k,
            None => forall|l: int| 0 <= l < ps.len() ==> ps[l].0 != k,
        },
    decreases ps,
{
    if ps.len() > 0 && ps[0].0 != k {
        let rest = ps.drop_first();
        lemma_find_key(rest, k);
        match find_key(rest, k) {
            Some(i) => {
                assert(ps[i + 1] == rest[i]);
                assert forall|l: int| 0 <= l < i + 1 implies ps[l].0 != k by {
                    if l > 0 {
                        assert(ps[l] == rest[l - 1]);
                    }
                }
            },
            None => {
                assert forall|l: int| 0 <= l < ps.len() implies ps[l].0 != k by {
                    if l > 0 {
                        assert(ps[l] == rest[l - 1]);
                    }
                }
            },
        }
    }
}

/// Adds one property entry, replacing the entry of the same name in place
/// where there is one and appending otherwise.
fn upsert_x(props: &mut Vec<(String, Property)>, name: String, p: Property)
    ensures
        props_view(final(props)@) == upsert(props_view(old(props)@), (name@, prop_view(p))),
{
    let ghost pv = props_view(props@);
    let ghost entry = (name@, prop_view(p));
    proof {
        lemma_find_key(pv, name@);
        lemma_props_view(props@);
    }
    let n = props.len();
    let mut j: usize = 0;
    while j < n
        invariant
            j <= n == props@.len(),
            props@ == old(props)@,
            pv == props_view(props@),
            pv.len() == n,
            entry == (name@, prop_view(p)),
            forall|l: int| 0 <= l < j ==> pv[l].0 != name@,
            forall|l: int| 0 <= l < n ==> pv[l] == (props@[l].0@, prop_view(props@[l].1)),
        decreases n - j,
    {
        if str_eq(props[j].0.as_str(), name.as_str()) {
            proof {
                lemma_find_key(pv, name@);
                assert(pv[j as int].0 == name@);
                assert(find_key(pv, name@) == Some(j as int));
            }
            let ghost before = props@;
            let ghost gname = name;
            let ghost gp = p;
            props.remove(j);
            props.insert(j, (name, p));
            proof {
                lemma_props_view(before);
                lemma_props_view(props@);
                assert(props@ == before.remove(j as int).insert(j as int, (gname, gp)));
                assert(props@.len() == before.len());
                assert(props@[j as int] == (gname, gp));
                assert(props@[j as int].0@ == entry.0 && prop_view(props@[j as int].1)
                    == entry.1);
                assert forall|l: int| 0 <= l < props@.len() implies props_view(props@)[l]
                    == pv.update(j as int, entry)[l] by {
                    if l != j {
                        assert(props@[l] == before[l]);
                    }
                }
                assert(props_view(props@) =~= pv.update(j as int, entry));
            }
            return ;
        }
        j = j + 1;
    }
    proof {
        assert(find_key(pv, name@) is None);
    }
    let ghost before = props@;
    props.push((name, p));
    proof {
        lemma_props_view(props@);
        assert(props_view(props@) =~= pv.push(entry));
    }
}

/// Folds the property entries into a list with unique names, the last
/// declaration of a name winning.
fn dedup_x(ps: Vec<(String, Property)>) -> (r: Vec<(String, Property)>)
    ensures
        props_view(r@) == dedup_props(seq![], props_view(ps@)),
{
    let ghost whole = props_view(ps@);
    let ghost emp = Seq::<(Seq<char>, PropertyV)>::empty();
    let mut rest = ps;
    let mut acc: Vec<(String, Property)> = Vec::new();
    proof {
        assert(props_view(acc@) =~= emp);
    }
    while rest.len() > 0
        invariant
            dedup_props(emp, whole) == dedup_props(props_view(acc@), props_view(rest@)),
        decreases rest.len(),
    {
        let ghost r0 = rest@;
        let ghost rv = props_view(rest@);
        proof {
            lemma_props_view(r0);
        }
        let e = rest.remove(0);
        let ghost racc = props_view(acc@);
        proof {
            lemma_props_view(rest@);
            assert(rest@ =~= r0.drop_first());
            assert(props_view(rest@) =~= rv.drop_first());
            assert(rv[0] == (e.0@, prop_view(e.1)));
        }
        upsert_x(&mut acc, e.0, e.1);
        proof {
            assert(props_view(acc@) == upsert(racc, rv[0]));
        }
    }
    proof {
        assert(props_view(rest@).len() == 0);
        assert(dedup_props(emp, whole) == props_view(acc@));
        assert(emp =~= Seq::<(Seq<char>, PropertyV)>::empty());
    }
    acc
}

/// The names of the part-of-group schemas, in order.
fn member_names_x(ss: &Vec<Schema>) -> (r: Vec<String>)
    ensures
        strings_view(r@) == member_names(schemas_view(ss@)),
{
    let ghost sv = schemas_view(ss@);
    proof {
        lemma_schemas_view(ss@);
    }
    let n = ss.len();
    let mut out: Vec<String> = Vec::new();
    let mut i: usize = 0;
    proof {
        assert(sv.skip(0) =~= sv);
        assert(strings_view(out@) =~= Seq::<Seq<char>>::empty());
    }
    while i < n
        invariant
            i <= n == ss@.len(),
            sv == schemas_view(ss@),
            sv.len() == n,
            forall|l: int| 0 <= l < n ==> sv[l] == schema_view(ss@[l]),
            member_names(sv) == strings_view(out@) + member_names(sv.skip(i as int)),
        decreases n - i,
    {
        let ghost pre = strings_view(out@);
        let ghost suf = sv.skip(i as int);
        proof {
            assert(suf[0] == sv[i as int]);
            assert(suf.drop_first() =~= sv.skip(i + 1));
        }
        if ss[i].part_of_group {
            let nm = ss[i].schema_name.clone();
            let ghost out0 = out@;
            out.push(nm);
            proof {
                lemma_strings_view(out@);
                lemma_strings_view(out0);
                assert(strings_view(out@) =~= pre.push(sv[i as int].schema_name));
                assert(strings_view(out@) + member_names(sv.skip(i + 1)) =~= pre + member_names(
                    suf,
                ));
            }
        } else {
            proof {
                assert(strings_view(out@) + member_names(sv.skip(i + 1)) =~= pre + member_names(
                    suf,
                ));
            }
        }
        i = i + 1;
    }
    proof {
        assert(member_names(sv.skip(i as int)) =~= Seq::<Seq<char>>::empty());
        assert(strings_view(out@) =~= member_names(sv));
    }
    out
}

/// Free traversal of the nodes from `i` on (executable form of `sp_free`).
fn p_free(nodes: &LitDocument, i: usize, g: bool) -> (r: Result<Vec<Schema>, ExtractError>)
    requires
        i <= nodes@.len(),
    ensures
        ({
            let s = sp_free(doc_view(nodes@).skip(i as int), g);
            match r {
                Ok(ss) => s == Ok::<Seq<SchemaV>, ExtractErrV>(schemas_view(ss@)),
                Err(e) => s == Err::<Seq<SchemaV>, ExtractErrV>(err_view(e)),
            }
        }),
    decreases nodes, 1int, nodes@.len() - i,
{
    proof {
        lemma_doc_view(nodes@);
    }
    let ghost dv = doc_view(nodes@);
    if i >= nodes.len() {
        proof {
            assert(dv.skip(i as int) =~= Seq::<NodeV>::empty());
            assert(schemas_view(Seq::<Schema>::empty()) =~= Seq::<SchemaV>::empty());
        }
        Ok(Vec::new())
    } else {
        let ghost suf = dv.skip(i as int);
        proof {
            assert(suf[0] == node_view(nodes@[i as int]));
            assert(suf.drop_first() =~= dv.skip(i + 1));
        }
        match p_free_node(&nodes[i], g) {
            Err(e) => Err(e),
            Ok(mut head) => match p_free(nodes, i + 1, g) {
                Err(e) => Err(e),
                Ok(mut rest) => {
                    let ghost hv = head@;
                    let ghost rv = rest@;
                    head.append(&mut rest);
                    proof {
                        lemma_schemas_view_concat(hv, rv);
                    }
                    Ok(head)
                },
            },
        }
    }
}

/// Free traversal of one node (executable form of `sp_free_node`).
fn p_free_node(n: &LitNode, g: bool) -> (r: Result<Vec<Schema>, ExtractError>)
    ensures
        ({
            let s = sp_free_node(node_view(*n), g);
            match r {
                Ok(ss) => s == Ok::<Seq<SchemaV>, ExtractErrV>(schemas_view(ss@)),
                Err(e) => s == Err::<Seq<SchemaV>, ExtractErrV>(err_view(e)),
            }
        }),
    decreases n, 0int, 0int,
{
    match n {
        LitNode::Text(_) => {
            proof {
                assert(schemas_view(Seq::<Schema>::empty()) =~= Seq::<SchemaV>::empty());
            }
            Ok(Vec::new())
        },
        LitNode::Comment(_) => {
            proof {
                assert(schemas_view(Seq::<Schema>::empty()) =~= Seq::<SchemaV>::empty());
            }
            Ok(Vec::new())
        },
        LitNode::Fn(name, args) => {
            if str_eq(name.as_str(), "schema") || str_eq(name.as_str(), "schema-group") {
                p_schema(name, args, g)
            } else if str_eq(name.as_str(), "required-attribute") || str_eq(
                name.as_str(),
                "optional-attribute",
            ) {
                match p_prop(name, args, g) {
                    Err(e) => Err(e),
                    Ok((entry, inner)) => {
                        let (pname, prop) = entry;
                        let ghost gpname = pname;
                        let ghost gprop = prop;
                        let oname = "$orphaned:".to_owned().concat(pname.as_str());
                        let mut pvec: Vec<(String, Property)> = Vec::new();
                        pvec.push((pname, prop));
                        let orphan = Schema {
                            schema_name: oname,
                            part_of_group: false,
                            group_members: Vec::new(),
                            properties: pvec,
                        };
                        let ghost gorphan = orphan;
                        let ghost ov = schema_view(orphan);
                        let mut out: Vec<Schema> = Vec::new();
                        out.push(orphan);
                        let mut inner_vec = inner;
                        let ghost iv = inner_vec@;
                        out.append(&mut inner_vec);
                        proof {
                            lemma_props_view(seq![(gpname, gprop)]);
                            assert(ov.properties =~= seq![(gpname@, prop_view(gprop))]);
                            assert(ov.group_members =~= Seq::<Seq<char>>::empty());
                            assert(out@ =~= seq![gorphan] + iv);
                            lemma_schemas_view_concat(seq![gorphan], iv);
                            lemma_schemas_view(seq![gorphan]);
                            assert(schemas_view(seq![gorphan]) =~= seq![ov]);
                        }
                        Ok(out)
                    },
                }
            } else {
                let r = p_free_args(args, 0, g);
                proof {
                    assert(args_view(args@).skip(0) =~= args_view(args@));
                }
                r
            }
        },
    }
}

/// Free traversal of the arguments from `j` on (executable form of
/// `sp_free_args`).
fn p_free_args(args: &Vec<LitDocument>, j: usize, g: bool) -> (r: Result<
    Vec<Schema>,
    ExtractError,
>)
    requires
        j <= args@.len(),
    ensures
        ({
            let s = sp_free_args(args_view(args@).skip(j as int), g);
            match r {
                Ok(ss) => s == Ok::<Seq<SchemaV>, ExtractErrV>(schemas_view(ss@)),
                Err(e) => s == Err::<Seq<SchemaV>, ExtractErrV>(err_view(e)),
            }
        }),
    decreases args, 2int, args@.len() - j,
{
    proof {
        lemma_args_view(args@);
    }
    let ghost av = args_view(args@);
    if j >= args.len() {
        proof {
            assert(av.skip(j as int) =~= Seq::<Seq<NodeV>>::empty());
            assert(schemas_view(Seq::<Schema>::empty()) =~= Seq::<SchemaV>::empty());
        }
        Ok(Vec::new())
    } else {
        let ghost suf = av.skip(j as int);
        proof {
            assert(suf[0] == doc_view(args@[j as int]@));
            assert(suf.drop_first() =~= av.skip(j + 1));
            assert(doc_view(args@[j as int]@).skip(0) =~= doc_view(args@[j as int]@));
        }
        match p_free(&args[j], 0, g) {
            Err(e) => Err(e),
            Ok(mut head) => match p_free_args(args, j + 1, g) {
                Err(e) => Err(e),
                Ok(mut rest) => {
                    let ghost hv = head@;
                    let ghost rv = rest@;
                    head.append(&mut rest);
                    proof {
                        lemma_schemas_view_concat(hv, rv);
                    }
                    Ok(head)
                },
            },
        }
    }
}

/// One attribute call (executable form of `sp_prop`).
fn p_prop(name: &String, args: &Vec<LitDocument>, g: bool) -> (r: Result<
    ((String, Property), Vec<Schema>),
    ExtractError,
>)
    ensures
        ({
            let s = sp_prop(name@, args_view(args@), g);
            match r {
                Ok(v) => s == Ok::<((Seq<char>, PropertyV), Seq<SchemaV>), ExtractErrV>(
                    ((v.0.0@, prop_view(v.0.1)), schemas_view(v.1@)),
                ),
                Err(e) => s == Err::<((Seq<char>, PropertyV), Seq<SchemaV>), ExtractErrV>(
                    err_view(e),
                ),
            }
        }),
    decreases args, 2int, 0int,
{
    proof {
        lemma_args_view(args@);
    }
    let ghost av = args_view(args@);
    if args.len() < 3 {
        Err(ExtractError::Structure(name.clone()))
    } else {
        proof {
            assert(av[0] == doc_view(args@[0]@));
            assert(av[1] == doc_view(args@[1]@));
            assert(av[2] == doc_view(args@[2]@));
        }
        let md0 = text_to_markdown(&args[0]);
        let c0 = str_chars(md0.as_str());
        let t0 = trim_range(&c0, 0, c0.len());
        let prop_name = string_of_chars(&t0);
        proof {
            assert(c0@.subrange(0, c0@.len() as int) =~= c0@);
        }
        let raw1 = raw_text(&args[1]);
        let c1 = str_chars(raw1.as_str());
        let t1 = trim_range(&c1, 0, c1.len());
        proof {
            assert(c1@.subrange(0, c1@.len() as int) =~= c1@);
        }
        let is_list = t1.len() > 0 && t1[0] == '[';
        let tych = dash_x(&t1);
        match parse_type_chars(&tych) {
            None => Err(ExtractError::TypeSyntax(string_of_chars(&tych))),
            Some(ty) => {
                let md2 = text_to_markdown(&args[2]);
                let c2 = str_chars(md2.as_str());
                let t2 = trim_range(&c2, 0, c2.len());
                let docs = string_of_chars(&t2);
                proof {
                    assert(c2@.subrange(0, c2@.len() as int) =~= c2@);
                    assert(doc_view(args@[2]@).skip(0) =~= doc_view(args@[2]@));
                }
                match p_free(&args[2], 0, g) {
                    Err(e) => Err(e),
                    Ok(inner) => {
                        let required = str_eq(name.as_str(), "required-attribute");
                        let prop = Property { prop_type: ty, required, list: is_list, docs };
                        Ok(((prop_name, prop), inner))
                    },
                }
            },
        }
    }
}

/// A schema or schema-group call (executable form of `sp_schema`).
fn p_schema(name: &String, args: &Vec<LitDocument>, g: bool) -> (r: Result<
    Vec<Schema>,
    ExtractError,
>)
    ensures
        ({
            let s = sp_schema(name@, args_view(args@), g);
            match r {
                Ok(ss) => s == Ok::<Seq<SchemaV>, ExtractErrV>(schemas_view(ss@)),
                Err(e) => s == Err::<Seq<SchemaV>, ExtractErrV>(err_view(e)),
            }
        }),
    decreases args, 4int, 0int,
{
    proof {
        lemma_args_view(args@);
    }
    let ghost av = args_view(args@);
    let is_group = str_eq(name.as_str(), "schema-group");
    let pidx: usize = if is_group {
        2
    } else {
        1
    };
    if args.len() <= pidx {
        Err(ExtractError::Structure(name.clone()))
    } else {
        let sub_g = g || is_group;
        proof {
            assert(av.skip(0) =~= av);
        }
        match p_schema_args(args, 0, pidx, sub_g) {
            Err(e) => Err(e),
            Ok((props, found)) => {
                proof {
                    assert(av[0] == doc_view(args@[0]@));
                }
                let md0 = text_to_markdown(&args[0]);
                let c0 = str_chars(md0.as_str());
                let sname_chars = slug_x(&c0);
                let sname = string_of_chars(&sname_chars);
                let members = if is_group {
                    member_names_x(&found)
                } else {
                    Vec::new()
                };
                proof {
                    if !is_group {
                        assert(strings_view(Seq::<String>::empty()) =~= Seq::<Seq<char>>::empty());
                    }
                }
                let deduped = dedup_x(props);
                let ghost foundv = schemas_view(found@);
                let me = Schema {
                    schema_name: sname,
                    part_of_group: g,
                    group_members: members,
                    properties: deduped,
                };
                let ghost mev = schema_view(me);
                let mut out = found;
                let ghost outv = out@;
                out.push(me);
                proof {
                    assert(out@ =~= outv + seq![
                        Schema {
                            schema_name: sname,
                            part_of_group: g,
                            group_members: members,
                            properties: deduped,
                        },
                    ]);
                    lemma_schemas_view_concat(outv, out@.subrange(outv.len() as int, out@.len() as int));
                    assert(out@.subrange(outv.len() as int, out@.len() as int) =~= seq![out@[outv.len() as int]]);
                    lemma_schemas_view(seq![out@[outv.len() as int]]);
                    assert(schemas_view(seq![out@[outv.len() as int]]) =~= seq![mev]);
                    assert(schemas_view(out@) =~= foundv + seq![mev]);
                }
                Ok(out)
            },
        }
    }
}

/// The arguments of a schema call from `j` on (executable form of
/// `sp_schema_args`).
fn p_schema_args(args: &Vec<LitDocument>, j: usize, pidx: usize, g: bool) -> (r: Result<
    (Vec<(String, Property)>, Vec<Schema>),
    ExtractError,
>)
    requires
        j <= args@.len(),
    ensures
        ({
            let s = sp_schema_args(args_view(args@).skip(j as int), pidx - j, g);
            match r {
                Ok(v) => s == Ok::<(Seq<(Seq<char>, PropertyV)>, Seq<SchemaV>), ExtractErrV>(
                    (props_view(v.0@), schemas_view(v.1@)),
                ),
                Err(e) => s == Err::<(Seq<(Seq<char>, PropertyV)>, Seq<SchemaV>), ExtractErrV>(
                    err_view(e),
                ),
            }
        }),
    decreases args, 3int, args@.len() - j,
{
    proof {
        lemma_args_view(args@);
    }
    let ghost av = args_view(args@);
    if j >= args.len() {
        proof {
            assert(av.skip(j as int) =~= Seq::<Seq<NodeV>>::empty());
            assert(schemas_view(Seq::<Schema>::empty()) =~= Seq::<SchemaV>::empty());
            assert(props_view(Seq::<(String, Property)>::empty()) =~= Seq::<
                (Seq<char>, PropertyV),
            >::empty());
        }
        Ok((Vec::new(), Vec::new()))
    } else {
        let ghost suf = av.skip(j as int);
        proof {
            assert(suf[0] == doc_view(args@[j as int]@));
            assert(suf.drop_first() =~= av.skip(j + 1));
            assert(doc_view(args@[j as int]@).skip(0) =~= doc_view(args@[j as int]@));
        }
        let head: Result<(Vec<(String, Property)>, Vec<Schema>), ExtractError> = if j == pidx {
            p_bounded(&args[j], 0, g)
        } else {
            match p_free(&args[j], 0, g) {
                Err(e) => Err(e),
                Ok(ss) => {
                    proof {
                        assert(props_view(Seq::<(String, Property)>::empty()) =~= Seq::<
                            (Seq<char>, PropertyV),
                        >::empty());
                    }
                    Ok((Vec::new(), ss))
                },
            }
        };
        match head {
            Err(e) => Err(e),
            Ok((mut hp, mut hs)) => match p_schema_args(args, j + 1, pidx, g) {
                Err(e) => Err(e),
                Ok((mut rp, mut rs)) => {
                    let ghost hpv = hp@;
                    let ghost rpv = rp@;
                    let ghost hsv = hs@;
                    let ghost rsv = rs@;
                    hp.append(&mut rp);
                    hs.append(&mut rs);
                    proof {
                        lemma_props_view_concat(hpv, rpv);
                        lemma_schemas_view_concat(hsv, rsv);
                    }
                    Ok((hp, hs))
                },
            },
        }
    }
}

/// Bounded traversal of the nodes from `i` on (executable form of
/// `sp_bounded`).
fn p_bounded(nodes: &LitDocument, i: usize, g: bool) -> (r: Result<
    (Vec<(String, Property)>, Vec<Schema>),
    ExtractError,
>)
    requires
        i <= nodes@.len(),
    ensures
        ({
            let s = sp_bounded(doc_view(nodes@).skip(i as int), g);
            match r {
                Ok(v) => s == Ok::<(Seq<(Seq<char>, PropertyV)>, Seq<SchemaV>), ExtractErrV>(
                    (props_view(v.0@), schemas_view(v.1@)),
                ),
                Err(e) => s == Err::<(Seq<(Seq<char>, PropertyV)>, Seq<SchemaV>), ExtractErrV>(
                    err_view(e),
                ),
            }
        }),
    decreases nodes, 1int, nodes@.len() - i,
{
    proof {
        lemma_doc_view(nodes@);
    }
    let ghost dv = doc_view(nodes@);
    if i >= nodes.len() {
        proof {
            assert(dv.skip(i as int) =~= Seq::<NodeV>::empty());
            assert(schemas_view(Seq::<Schema>::empty()) =~= Seq::<SchemaV>::empty());
            assert(props_view(Seq::<(String, Property)>::empty()) =~= Seq::<
                (Seq<char>, PropertyV),
            >::empty());
        }
        Ok((Vec::new(), Vec::new()))
    } else {
        let ghost suf = dv.skip(i as int);
        proof {
            assert(suf[0] == node_view(nodes@[i as int]));
            assert(suf.drop_first() =~= dv.skip(i + 1));
        }
        match p_bounded_node(&nodes[i], g) {
            Err(e) => Err(e),
            Ok((mut hp, mut hs)) => match p_bounded(nodes, i + 1, g) {
                Err(e) => Err(e),
                Ok((mut rp, mut rs)) => {
                    let ghost hpv = hp@;
                    let ghost rpv = rp@;
                    let ghost hsv = hs@;
                    let ghost rsv = rs@;
                    hp.append(&mut rp);
                    hs.append(&mut rs);
                    proof {
                        lemma_props_view_concat(hpv, rpv);
                        lemma_schemas_view_concat(hsv, rsv);
                    }
                    Ok((hp, hs))
                },
            },
        }
    }
}

/// Bounded traversal of one node (executable form of `sp_bounded_node`).
fn p_bounded_node(n: &LitNode, g: bool) -> (r: Result<
    (Vec<(String, Property)>, Vec<Schema>),
    ExtractError,
>)
    ensures
        ({
            let s = sp_bounded_node(node_view(*n), g);
            match r {
                Ok(v) => s == Ok::<(Seq<(Seq<char>, PropertyV)>, Seq<SchemaV>), ExtractErrV>(
                    (props_view(v.0@), schemas_view(v.1@)),
                ),
                Err(e) => s == Err::<(Seq<(Seq<char>, PropertyV)>, Seq<SchemaV>), ExtractErrV>(
                    err_view(e),
                ),
            }
        }),
    decreases n, 0int, 0int,
{
    match n {
        LitNode::Text(_) => {
            proof {
                assert(schemas_view(Seq::<Schema>::empty()) =~= Seq::<SchemaV>::empty());
                assert(props_view(Seq::<(String, Property)>::empty()) =~= Seq::<
                    (Seq<char>, PropertyV),
                >::empty());
            }
            Ok((Vec::new(), Vec::new()))
        },
        LitNode::Comment(_) => {
            proof {
                assert(schemas_view(Seq::<Schema>::empty()) =~= Seq::<SchemaV>::empty());
                assert(props_view(Seq::<(String, Property)>::empty()) =~= Seq::<
                    (Seq<char>, PropertyV),
                >::empty());
            }
            Ok((Vec::new(), Vec::new()))
        },
        LitNode::Fn(name, args) => {
            if str_eq(name.as_str(), "required-attribute") || str_eq(
                name.as_str(),
                "optional-attribute",
            ) {
                match p_prop(name, args, g) {
                    Err(e) => Err(e),
                    Ok((entry, inner)) => {
                        let ghost ev = (entry.0@, prop_view(entry.1));
                        let mut pvec: Vec<(String, Property)> = Vec::new();
                        pvec.push(entry);
                        proof {
                            lemma_props_view(pvec@);
                            assert(props_view(pvec@) =~= seq![ev]);
                        }
                        Ok((pvec, inner))
                    },
                }
            } else if str_eq(name.as_str(), "schema") || str_eq(name.as_str(), "schema-group") {
                match p_schema(name, args, g) {
                    Err(e) => Err(e),
                    Ok(ss) => {
                        proof {
                            assert(props_view(Seq::<(String, Property)>::empty()) =~= Seq::<
                                (Seq<char>, PropertyV),
                            >::empty());
                        }
                        Ok((Vec::new(), ss))
                    },
                }
            } else {
                let r = p_free_args(args, 0, g);
                proof {
                    assert(args_view(args@).skip(0) =~= args_view(args@));
                }
                match r {
                    Err(e) => Err(e),
                    Ok(ss) => {
                        proof {
                            assert(props_view(Seq::<(String, Property)>::empty()) =~= Seq::<
                                (Seq<char>, PropertyV),
                            >::empty());
                        }
                        Ok((Vec::new(), ss))
                    },
                }
            }
        },
    }
}

/// Extracts every schema the document declares, in document order.
///
/// Yields exactly what `sp_extract` gives on the document's model: the
/// declared schemas on success, and the first type syntax or structural
/// error otherwise. The result is well formed: every group member names a
/// part-of-group schema of the result, and no schema holds two properties
/// of one name.
pub fn to_jsonschemas(doc: &LitDocument) -> (r: Result<Vec<Schema>, ExtractError>)
    ensures
        ({
            let s = sp_extract(doc_view(doc@));
            match r {
                Ok(ss) => s == Ok::<Seq<SchemaV>, ExtractErrV>(schemas_view(ss@)) && schemas_wf(
                    schemas_view(ss@),
                ),
                Err(e) => s == Err::<Seq<SchemaV>, ExtractErrV>(err_view(e)),
            }
        }),
{
    let r = p_free(doc, 0, false);
    proof {
        assert(doc_view(doc@).skip(0) =~= doc_view(doc@));
        lemma_extract_wf(doc_view(doc@));
    }
    r
}

} // verus!
