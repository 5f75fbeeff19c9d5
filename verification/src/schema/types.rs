//! The schema model the extractor produces, and its mathematical view.

use vstd::prelude::*;

verus! {

/// The type of a property, as the type-expression grammar yields it.
///
/// `OneOf` is a union; the grammar only ever produces it with at least two
/// members, none of which is itself a union. An identifier containing `.`
/// is normalized to the generic string reference when it is parsed.
#[derive(Debug, PartialEq, Eq, Hash)]
pub enum PropertyType {
    OneOf(Vec<PropertyType>),
    Constant(String),
    Ref(String),
    ArrayOf(Box<PropertyType>),
    Dict,
}

/// One declared attribute of a schema.
#[derive(Debug, PartialEq, Eq, Hash)]
pub struct Property {
    pub prop_type: PropertyType,
    pub required: bool,
    pub list: bool,
    pub docs: String,
}

/// A named configuration shape. `properties` is an association list keyed by
/// property name, with unique keys, in declaration order. `group_members`
/// is populated only on a schema introduced by a group annotation: it holds
/// the names of the member schemas discovered in the group's subtree.
#[derive(Debug, PartialEq, Eq)]
pub struct Schema {
    pub schema_name: String,
    pub part_of_group: bool,
    pub group_members: Vec<String>,
    pub properties: Vec<(String, Property)>,
}

/// Model of a property type.
pub enum PTypeV {
    OneOf(Seq<PTypeV>),
    Constant(Seq<char>),
    Ref(Seq<char>),
    ArrayOf(Box<PTypeV>),
    Dict,
}

/// Model of a property.
pub struct PropertyV {
    pub prop_type: PTypeV,
    pub required: bool,
    pub list: bool,
    pub docs: Seq<char>,
}

/// Model of a schema.
pub struct SchemaV {
    pub schema_name: Seq<char>,
    pub part_of_group: bool,
    pub group_members: Seq<Seq<char>>,
    pub properties: Seq<(Seq<char>, PropertyV)>,
}

/// The model of a property type.
pub open spec fn ptype_view(t: PropertyType) -> PTypeV
    decreases t,
{
    match t {
        PropertyType::OneOf(ts) => PTypeV::OneOf(ptypes_view(ts@)),
        PropertyType::Constant(s) => PTypeV::Constant(s@),
        PropertyType::Ref(s) => PTypeV::Ref(s@),
        PropertyType::ArrayOf(b) => PTypeV::ArrayOf(Box::new(ptype_view(*b))),
        PropertyType::Dict => PTypeV::Dict,
    }
}

/// The model of a list of property types.
pub open spec fn ptypes_view(ts: Seq<PropertyType>) -> Seq<PTypeV>
    decreases ts,
{
    if ts.len() == 0 {
        seq![]
    } else {
        seq![ptype_view(ts[0])] + ptypes_view(ts.drop_first())
    }
}

/// The model of a property.
pub open spec fn prop_view(p: Property) -> PropertyV {
    PropertyV {
        prop_type: ptype_view(p.prop_type),
        required: p.required,
        list: p.list,
        docs: p.docs@,
    }
}

/// The model of a property list.
pub open spec fn props_view(ps: Seq<(String, Property)>) -> Seq<(Seq<char>, PropertyV)>
    decreases ps,
{
    if ps.len() == 0 {
        seq![]
    } else {
        seq![(ps[0].0@, prop_view(ps[0].1))] + props_view(ps.drop_first())
    }
}

/// `props_view` maps the list one by one.
pub proof fn lemma_props_view(ps: Seq<(String, Property)>)
    ensures
        props_view(ps).len() == ps.len(),
        forall|i: int|
            0 <= i < ps.len() ==> props_view(ps)[i] == (ps[i].0@, prop_view(ps[i].1)),
    decreases ps,
{
    if ps.len() > 0 {
        lemma_props_view(ps.drop_first());
    }
}

/// The model of a schema.
pub open spec fn schema_view(s: Schema) -> SchemaV {
    SchemaV {
        schema_name: s.schema_name@,
        part_of_group: s.part_of_group,
        group_members: strings_view(s.group_members@),
        properties: props_view(s.properties@),
    }
}

/// The model of a list of strings.
pub open spec fn strings_view(ss: Seq<String>) -> Seq<Seq<char>>
    decreases ss,
{
    if ss.len() == 0 {
        seq![]
    } else {
        seq![ss[0]@] + strings_view(ss.drop_first())
    }
}

/// `strings_view` maps the list one by one.
pub proof fn lemma_strings_view(ss: Seq<String>)
    ensures
        strings_view(ss).len() == ss.len(),
        forall|i: int| 0 <= i < ss.len() ==> strings_view(ss)[i] == ss[i]@,
    decreases ss,
{
    if ss.len() > 0 {
        lemma_strings_view(ss.drop_first());
    }
}

/// The model of a list of schemas.
pub open spec fn schemas_view(ss: Seq<Schema>) -> Seq<SchemaV>
    decreases ss,
{
    if ss.len() == 0 {
        seq![]
    } else {
        seq![schema_view(ss[0])] + schemas_view(ss.drop_first())
    }
}

/// `schemas_view` maps the list one by one.
pub proof fn lemma_schemas_view(ss: Seq<Schema>)
    ensures
        schemas_view(ss).len() == ss.len(),
        forall|i: int| 0 <= i < ss.len() ==> schemas_view(ss)[i] == schema_view(ss[i]),
    decreases ss,
{
    if ss.len() > 0 {
        lemma_schemas_view(ss.drop_first());
    }
}

/// `schemas_view` distributes over concatenation.
pub proof fn lemma_schemas_view_concat(a: Seq<Schema>, b: Seq<Schema>)
    ensures
        schemas_view(a + b) == schemas_view(a) + schemas_view(b),
{
    lemma_schemas_view(a);
    lemma_schemas_view(b);
    lemma_schemas_view(a + b);
    assert(schemas_view(a + b) =~= schemas_view(a) + schemas_view(b));
}

/// `props_view` distributes over concatenation.
pub proof fn lemma_props_view_concat(a: Seq<(String, Property)>, b: Seq<(String, Property)>)
    ensures
        props_view(a + b) == props_view(a) + props_view(b),
{
    lemma_props_view(a);
    lemma_props_view(b);
    lemma_props_view(a + b);
    assert(props_view(a + b) =~= props_view(a) + props_view(b));
}

/// A well-formed property type: every union has at least two members, and
/// no member of a union is itself a union.
pub open spec fn ptype_wf(t: PTypeV) -> bool
    decreases t,
{
    match t {
        PTypeV::OneOf(ts) => ts.len() >= 2 && ptypes_wf_nonunion(ts),
        PTypeV::ArrayOf(b) => ptype_wf(*b),
        _ => true,
    }
}

/// Every member of the list is well formed and is not itself a union.
pub open spec fn ptypes_wf_nonunion(ts: Seq<PTypeV>) -> bool
    decreases ts,
{
    if ts.len() == 0 {
        true
    } else {
        !(ts[0] is OneOf) && ptype_wf(ts[0]) && ptypes_wf_nonunion(ts.drop_first())
    }
}

/// No two properties of the list share a name.
pub open spec fn props_keys_unique(ps: Seq<(Seq<char>, PropertyV)>) -> bool {
    forall|i: int, j: int| 0 <= i < j < ps.len() ==> ps[i].0 != ps[j].0
}

} // verus!
