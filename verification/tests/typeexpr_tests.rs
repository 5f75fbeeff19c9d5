use litschema::schema::types::PropertyType;
use litschema::typeexpr::parse_type;

#[test]
fn reference_type() {
    assert_eq!(
        parse_type("string"),
        Some(PropertyType::Ref("string".to_string()))
    );
}

#[test]
fn dotted_reference_normalizes_to_string() {
    assert_eq!(
        parse_type("c.d"),
        Some(PropertyType::Ref("string".to_string()))
    );
}

#[test]
fn constant_type() {
    assert_eq!(
        parse_type("`lit`"),
        Some(PropertyType::Constant("lit".to_string()))
    );
}

#[test]
fn dict_type_discards_key_and_value_names() {
    assert_eq!(parse_type("{k:v}"), Some(PropertyType::Dict));
    assert_eq!(parse_type("{ key : value }"), None);
    assert_eq!(parse_type("{ key : value}"), Some(PropertyType::Dict));
}

#[test]
fn array_type() {
    assert_eq!(
        parse_type("[number]"),
        Some(PropertyType::ArrayOf(Box::new(PropertyType::Ref(
            "number".to_string()
        ))))
    );
}

#[test]
fn union_type_with_spaces() {
    assert_eq!(
        parse_type("a | b"),
        Some(PropertyType::OneOf(vec![
            PropertyType::Ref("a".to_string()),
            PropertyType::Ref("b".to_string()),
        ]))
    );
}

#[test]
fn single_member_union_collapses_to_the_member() {
    // The grammar never yields a one-element union: a lone member stands
    // for itself.
    assert_eq!(parse_type("a_b"), Some(PropertyType::Ref("a_b".to_string())));
}

#[test]
fn array_of_union_with_constant_and_dotted_reference() {
    assert_eq!(
        parse_type("[a|`b`|c.d]"),
        Some(PropertyType::ArrayOf(Box::new(PropertyType::OneOf(vec![
            PropertyType::Ref("a".to_string()),
            PropertyType::Constant("b".to_string()),
            PropertyType::Ref("string".to_string()),
        ]))))
    );
}

#[test]
fn malformed_type_strings_parse_to_nothing() {
    assert_eq!(parse_type(""), None);
    assert_eq!(parse_type("a|"), None);
    assert_eq!(parse_type("[a"), None);
    assert_eq!(parse_type("a]"), None);
    assert_eq!(parse_type("-"), None);
    assert_eq!(parse_type("a b"), None);
}

#[test]
fn parse_type_is_deterministic() {
    let a = parse_type("[a|`b`|c.d]");
    let b = parse_type("[a|`b`|c.d]");
    assert_eq!(a, b);
}

#[test]
fn produced_unions_have_two_or_more_flat_members() {
    match parse_type("[a|`b`|c.d]").unwrap() {
        PropertyType::ArrayOf(inner) => match *inner {
            PropertyType::OneOf(members) => {
                assert!(members.len() >= 2);
                for m in &members {
                    assert!(!matches!(m, PropertyType::OneOf(_)));
                }
            }
            other => panic!("expected a union, got {:?}", other),
        },
        other => panic!("expected an array, got {:?}", other),
    }
}
