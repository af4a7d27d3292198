use resource_parser::ast::{Resource, ResourcePropertyValue};
use resource_parser::json_utils::JsonValue;
use resource_parser::parser::{parse_resource_property_value, parse_resources};

#[test]
fn single_empty_block_yields_one_resource_and_empty_remainder() {
    let (rem, rs) = parse_resources("resource \"T\" \"N\" { }").unwrap();
    assert_eq!(rem, "");
    assert_eq!(
        rs,
        vec![Resource {
            res_type: "T".to_string(),
            res_name: "N".to_string(),
            res_def: vec![],
        }]
    );
}

#[test]
fn string_property_content_is_verbatim() {
    let (_, v) = parse_resource_property_value("\"some value\"", 0).unwrap();
    assert_eq!(v, ResourcePropertyValue::VString("some value".to_string()));

    let (rem, rs) = parse_resources("resource \"t\" \"n\" { key = \"some value\" }").unwrap();
    assert_eq!(rem, "");
    assert_eq!(
        rs[0].res_def,
        vec![(
            "key".to_string(),
            ResourcePropertyValue::VString("some value".to_string())
        )]
    );
}

#[test]
fn jsonencode_object_property() {
    let (_, v) = parse_resource_property_value("jsonencode({\"a\": [1,2,3]})", 0).unwrap();
    assert_eq!(
        v,
        ResourcePropertyValue::VJson(JsonValue::Object(vec![(
            "a".to_string(),
            JsonValue::Array(vec![
                JsonValue::Num("1".to_string()),
                JsonValue::Num("2".to_string()),
                JsonValue::Num("3".to_string()),
            ])
        )]))
    );
    assert_eq!("1".parse::<f64>().unwrap(), 1.0);
    assert_eq!("2".parse::<f64>().unwrap(), 2.0);
    assert_eq!("3".parse::<f64>().unwrap(), 3.0);
}

#[test]
fn toset_keeps_element_order() {
    let (_, v) = parse_resource_property_value("toset([\"a\",\"b\"])", 0).unwrap();
    assert_eq!(
        v,
        ResourcePropertyValue::VSet(vec!["a".to_string(), "b".to_string()])
    );
}

#[test]
fn dotted_reference_discards_third_segment() {
    let (_, v) = parse_resource_property_value("foo.bar.baz", 0).unwrap();
    assert_eq!(
        v,
        ResourcePropertyValue::VReference {
            res_type: "foo".to_string(),
            res_name: "bar".to_string(),
        }
    );
}

#[test]
fn each_key_is_the_placeholder() {
    let (_, v) = parse_resource_property_value("each.key", 0).unwrap();
    assert_eq!(v, ResourcePropertyValue::VEach);
}

#[test]
fn unterminated_json_object_is_fatal_not_a_string() {
    let input = "resource \"t\" \"n\" { v = jsonencode({\"a\": 1 }";
    let e = parse_resources(input).unwrap_err();
    assert!(e.fatal);
}

#[test]
fn two_blocks_separated_by_whitespace_are_both_collected() {
    let input = "resource \"a\" \"x\" { }\n\n  resource \"b\" \"y\" { }";
    let (rem, rs) = parse_resources(input).unwrap();
    assert_eq!(rem, "");
    assert_eq!(rs.len(), 2);
    assert_eq!(rs[0].res_type, "a");
    assert_eq!(rs[0].res_name, "x");
    assert_eq!(rs[1].res_type, "b");
    assert_eq!(rs[1].res_name, "y");
}

#[test]
fn trailing_text_stays_verbatim_in_remainder() {
    let input = "resource \"a\" \"x\" { } trailing garbage ###";
    let (rem, rs) = parse_resources(input).unwrap();
    assert_eq!(rs.len(), 1);
    assert_eq!(rem, "trailing garbage ###");
}

#[test]
fn reparsing_a_remainder_is_deterministic() {
    let input = "resource \"a\" \"x\" { } resource \"b\" \"y\" { } leftover";
    let (rem, rs) = parse_resources(input).unwrap();
    assert_eq!(rs.len(), 2);
    assert_eq!(rem, "leftover");

    let again = parse_resources(rem);
    let again2 = parse_resources(rem);
    assert_eq!(again.is_err(), again2.is_err());

    let anchored = "resource(not a block";
    let (rem1, rs1) = parse_resources(anchored).unwrap();
    assert_eq!(rs1.len(), 0);
    assert_eq!(rem1, anchored);
    let (rem2, rs2) = parse_resources(rem1).unwrap();
    assert_eq!(rs2.len(), 0);
    assert_eq!(rem2, rem1);
}

#[test]
fn duplicate_property_keys_are_both_kept_in_order() {
    let input = "resource \"t\" \"n\" { name = \"first\" name = \"second\" }";
    let (rem, rs) = parse_resources(input).unwrap();
    assert_eq!(rem, "");
    assert_eq!(
        rs[0].res_def,
        vec![
            (
                "name".to_string(),
                ResourcePropertyValue::VString("first".to_string())
            ),
            (
                "name".to_string(),
                ResourcePropertyValue::VString("second".to_string())
            ),
        ]
    );
}

#[test]
fn empty_quoted_identifiers_are_structurally_valid() {
    let (rem, rs) = parse_resources("resource \"\" \"\" { }").unwrap();
    assert_eq!(rem, "");
    assert_eq!(rs[0].res_type, "");
    assert_eq!(rs[0].res_name, "");
}

#[test]
fn missing_keyword_is_a_recoverable_failure_at_the_start() {
    let e = parse_resources("nothing to see here").unwrap_err();
    assert!(!e.fatal);
    assert_eq!(e.pos, 0);
}

#[test]
fn unterminated_type_identifier_is_fatal() {
    let e = parse_resources("resource \"abc").unwrap_err();
    assert!(e.fatal);
}

#[test]
fn unterminated_string_property_is_fatal() {
    let e = parse_resources("resource \"t\" \"n\" { key = \"abc").unwrap_err();
    assert!(e.fatal);
}

#[test]
fn unterminated_toset_is_fatal() {
    let e = parse_resources("resource \"t\" \"n\" { key = toset([\"a\" }").unwrap_err();
    assert!(e.fatal);
}

#[test]
fn unrecognised_property_value_is_fatal() {
    let e = parse_resources("resource \"t\" \"n\" { key = @@@ }").unwrap_err();
    assert!(e.fatal);
}

#[test]
fn property_keys_may_contain_punctuation() {
    let (rem, rs) = parse_resources("resource \"t\" \"n\" { a.b:c! = true }").unwrap();
    assert_eq!(rem, "");
    assert_eq!(
        rs[0].res_def,
        vec![(
            "a.b:c!".to_string(),
            ResourcePropertyValue::VBoolean(true)
        )]
    );
}

#[test]
fn whitespace_between_tokens_is_insignificant() {
    let input = "  \n\t resource\n\"t\"\t\"n\"\n{\n  flag =\n true\n}\n  ";
    let (rem, rs) = parse_resources(input).unwrap();
    assert_eq!(rem, "");
    assert_eq!(rs[0].res_type, "t");
    assert_eq!(rs[0].res_name, "n");
    assert_eq!(
        rs[0].res_def,
        vec![("flag".to_string(), ResourcePropertyValue::VBoolean(true))]
    );
}

#[test]
fn keyword_inside_a_string_literal_anchors_parsing_there() {
    // The driver anchors on the first occurrence of the substring, even
    // inside quotes; the text after that anchor then fails as a block.
    let e = parse_resources("text \"resource\" resource \"a\" \"b\" { }").unwrap_err();
    assert!(e.fatal);
}
