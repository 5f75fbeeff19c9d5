use litschema::convert::{to_jsonschemas, ExtractError};
use litschema::lit::parse;
use litschema::schema::types::PropertyType;

#[test]
fn empty_document_extracts_to_no_schemas() {
    let doc = parse("").unwrap();
    let out = to_jsonschemas(&doc).unwrap();
    assert!(out.is_empty());
}

#[test]
fn plain_prose_extracts_to_no_schemas() {
    let doc = parse("just some text {- and a comment -}").unwrap();
    let out = to_jsonschemas(&doc).unwrap();
    assert!(out.is_empty());
}

#[test]
fn schema_with_one_required_attribute() {
    let doc =
        parse("\\schema{widget}{\\required-attribute{name}{string}{The widget name.}}").unwrap();
    let out = to_jsonschemas(&doc).unwrap();
    assert_eq!(out.len(), 1);
    let s = &out[0];
    assert_eq!(s.schema_name, "widget");
    assert!(!s.part_of_group);
    assert!(s.group_members.is_empty());
    assert_eq!(s.properties.len(), 1);
    let (pname, prop) = &s.properties[0];
    assert_eq!(pname, "name");
    assert!(prop.required);
    assert!(!prop.list);
    assert_eq!(prop.prop_type, PropertyType::Ref("string".to_string()));
    assert_eq!(prop.docs, "The widget name.");
}

#[test]
fn optional_attribute_is_not_required() {
    let doc = parse("\\schema{s1}{\\optional-attribute{opt}{number}{Maybe.}}").unwrap();
    let out = to_jsonschemas(&doc).unwrap();
    assert_eq!(out.len(), 1);
    assert!(!out[0].properties[0].1.required);
}

#[test]
fn schema_group_collects_nested_member() {
    let doc = parse(
        "\\schema-group{shape}{\\schema{circle}{\\required-attribute{radius}{number}{R.}}}{}",
    )
    .unwrap();
    let out = to_jsonschemas(&doc).unwrap();
    assert_eq!(out.len(), 2);

    let circle = &out[0];
    assert_eq!(circle.schema_name, "circle");
    assert!(circle.part_of_group);
    assert_eq!(circle.properties.len(), 1);
    assert_eq!(circle.properties[0].0, "radius");
    assert_eq!(
        circle.properties[0].1.prop_type,
        PropertyType::Ref("number".to_string())
    );

    let shape = &out[1];
    assert_eq!(shape.schema_name, "shape");
    assert!(!shape.part_of_group);
    assert_eq!(shape.group_members, vec!["circle".to_string()]);
    assert!(shape.properties.is_empty());
}

#[test]
fn group_members_name_schemas_of_the_same_output() {
    let doc = parse(
        "\\schema-group{shape}{\\schema{circle}{\\required-attribute{radius}{number}{R.}}}{}",
    )
    .unwrap();
    let out = to_jsonschemas(&doc).unwrap();
    for s in &out {
        for m in &s.group_members {
            assert!(out
                .iter()
                .any(|t| &t.schema_name == m && t.part_of_group));
        }
    }
}

#[test]
fn schema_in_group_property_list_becomes_a_member() {
    let doc = parse("\\schema-group{grp}{}{\\schema{mem}{}}").unwrap();
    let out = to_jsonschemas(&doc).unwrap();
    assert_eq!(out.len(), 2);
    assert_eq!(out[0].schema_name, "mem");
    assert!(out[0].part_of_group);
    assert_eq!(out[1].schema_name, "grp");
    assert_eq!(out[1].group_members, vec!["mem".to_string()]);
}

#[test]
fn orphaned_attribute_becomes_a_synthetic_schema() {
    let doc = parse("\\required-attribute{port}{number}{Port.}").unwrap();
    let out = to_jsonschemas(&doc).unwrap();
    assert_eq!(out.len(), 1);
    let s = &out[0];
    assert_eq!(s.schema_name, "$orphaned:port");
    assert!(!s.part_of_group);
    assert!(s.group_members.is_empty());
    assert_eq!(s.properties.len(), 1);
    assert_eq!(s.properties[0].0, "port");
    assert!(s.properties[0].1.required);
}

#[test]
fn schema_name_is_slug_normalized() {
    let doc = parse("\\schema{My-Cool  Name}{}").unwrap();
    let out = to_jsonschemas(&doc).unwrap();
    assert_eq!(out[0].schema_name, "My_Cool_Name");
}

#[test]
fn reserved_primitive_names_survive_normalization() {
    // The serializer's fallback shapes are keyed by these names; the
    // extractor must hand them over verbatim.
    let doc = parse("\\schema{env-vars}{}\\schema{number}{}\\schema{version}{}").unwrap();
    let out = to_jsonschemas(&doc).unwrap();
    let names: Vec<&str> = out.iter().map(|s| s.schema_name.as_str()).collect();
    assert_eq!(names, vec!["env_vars", "number", "version"]);
}

#[test]
fn leading_underscores_are_stripped_from_names() {
    let doc = parse("\\schema{-x2}{}").unwrap();
    let out = to_jsonschemas(&doc).unwrap();
    assert_eq!(out[0].schema_name, "x2");
}

#[test]
fn list_flag_follows_the_bracket_prefix() {
    let doc = parse("\\schema{s2}{\\required-attribute{xs}{[a]}{List.}}").unwrap();
    let out = to_jsonschemas(&doc).unwrap();
    let prop = &out[0].properties[0].1;
    assert!(prop.list);
    assert_eq!(
        prop.prop_type,
        PropertyType::ArrayOf(Box::new(PropertyType::Ref("a".to_string())))
    );
}

#[test]
fn hyphens_in_type_strings_become_underscores() {
    let doc = parse("\\schema{s3}{\\required-attribute{x}{some-ref}{D.}}").unwrap();
    let out = to_jsonschemas(&doc).unwrap();
    assert_eq!(
        out[0].properties[0].1.prop_type,
        PropertyType::Ref("some_ref".to_string())
    );
}

#[test]
fn malformed_type_string_aborts_with_type_syntax_error() {
    let doc = parse("\\schema{s4}{\\required-attribute{x}{???}{D.}}").unwrap();
    let err = to_jsonschemas(&doc).unwrap_err();
    assert_eq!(err, ExtractError::TypeSyntax("???".to_string()));
}

#[test]
fn schema_with_too_few_arguments_is_a_structural_error() {
    let doc = parse("\\schema{lonely}").unwrap();
    let err = to_jsonschemas(&doc).unwrap_err();
    assert_eq!(err, ExtractError::Structure("schema".to_string()));
}

#[test]
fn attribute_with_too_few_arguments_is_a_structural_error() {
    let doc = parse("\\required-attribute{x}{t}").unwrap();
    let err = to_jsonschemas(&doc).unwrap_err();
    assert_eq!(err, ExtractError::Structure("required-attribute".to_string()));
}

#[test]
fn schema_group_needs_three_arguments() {
    let doc = parse("\\schema-group{g}{}").unwrap();
    let err = to_jsonschemas(&doc).unwrap_err();
    assert_eq!(err, ExtractError::Structure("schema-group".to_string()));
}

#[test]
fn schemas_nested_in_docs_are_discovered() {
    let doc = parse("\\schema{outer}{\\required-attribute{x}{t2}{\\schema{inner}{}}}").unwrap();
    let out = to_jsonschemas(&doc).unwrap();
    let names: Vec<&str> = out.iter().map(|s| s.schema_name.as_str()).collect();
    assert_eq!(names, vec!["inner", "outer"]);
    assert_eq!(out[1].properties.len(), 1);
}

#[test]
fn each_attribute_contributes_exactly_one_property() {
    let doc = parse(
        "\\schema{s5}{\\required-attribute{a}{t1}{A.}\\optional-attribute{b}{t2}{B.}}",
    )
    .unwrap();
    let out = to_jsonschemas(&doc).unwrap();
    assert_eq!(out.len(), 1);
    let names: Vec<&str> = out[0].properties.iter().map(|p| p.0.as_str()).collect();
    assert_eq!(names, vec!["a", "b"]);
}

#[test]
fn repeated_property_name_keeps_the_last_declaration() {
    let doc = parse(
        "\\schema{s6}{\\required-attribute{x}{t1}{A.}\\optional-attribute{x}{t2}{B.}}",
    )
    .unwrap();
    let out = to_jsonschemas(&doc).unwrap();
    assert_eq!(out[0].properties.len(), 1);
    let (name, prop) = &out[0].properties[0];
    assert_eq!(name, "x");
    assert!(!prop.required);
    assert_eq!(prop.prop_type, PropertyType::Ref("t2".to_string()));
}

#[test]
fn orphans_inside_a_group_are_not_members() {
    // A synthetic orphan schema is never part of a group, so the group does
    // not list it.
    let doc = parse("\\schema-group{g2}{\\required-attribute{x}{t4}{D.}}{}").unwrap();
    let out = to_jsonschemas(&doc).unwrap();
    let names: Vec<&str> = out.iter().map(|s| s.schema_name.as_str()).collect();
    assert_eq!(names, vec!["$orphaned:x", "g2"]);
    assert!(!out[0].part_of_group);
    assert!(out[1].group_members.is_empty());
}

#[test]
fn schemas_are_found_inside_preformatted_arguments() {
    let doc = parse("\\wrap{{\\schema{deep}{}}}").unwrap();
    let out = to_jsonschemas(&doc).unwrap();
    assert_eq!(out.len(), 1);
    assert_eq!(out[0].schema_name, "deep");
}

#[test]
fn attributes_inside_wrapper_calls_in_a_property_list_are_orphaned() {
    // The bounded walk looks for attributes only at the top of a property
    // list; inside any other call they are met in free mode.
    let doc = parse("\\schema{s7}{\\wrap{\\required-attribute{y}{t3}{D.}}}").unwrap();
    let out = to_jsonschemas(&doc).unwrap();
    let names: Vec<&str> = out.iter().map(|s| s.schema_name.as_str()).collect();
    assert_eq!(names, vec!["$orphaned:y", "s7"]);
    assert!(out[1].properties.is_empty());
}
