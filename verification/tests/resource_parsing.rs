use resource_parser::ast::{Resource, ResourcePropertyValue};
use resource_parser::json_utils::JsonValue;
use resource_parser::parser::{parse_resource_identifier, parse_resources};

#[test]
fn parse_resource_identifier_success() {
    let result = parse_resource_identifier("\"resource_identifier\"", 0).unwrap();
    assert_eq!(result, (21, "resource_identifier".to_string()));
}

#[test]
fn parse_resource_simple() {
    let ap_resource = "resource \"res_type\" \"res_name\" {
            unique_name       = \"some_unique_name\"
            another_property     = \"Another property that contains spaces and =\"
        }";

    let expected = Resource {
        res_type: "res_type".to_string(),
        res_name: "res_name".to_string(),
        res_def: vec![
            (
                "unique_name".to_string(),
                ResourcePropertyValue::VString("some_unique_name".to_owned()),
            ),
            (
                "another_property".to_string(),
                ResourcePropertyValue::VString(
                    "Another property that contains spaces and =".to_owned(),
                ),
            ),
        ],
    };

    let result = parse_resources(ap_resource).expect("Failed parsing the data");

    assert_eq!(result, ("", vec![expected]));
}

#[test]
fn parse_resource_json() {
    let ap_resource = "resource \"res_type\" \"res_name\" {
            unique_name       = \"some_unique_name\"
            json_property     = jsonencode({
                \"array\": [1,2,3],
                \"object\": {\"a\": \"a\"},
                \"string\": \"Just a string with spaces\",
                \"boolean\": true
            })
        }";

    let expected = Resource {
        res_type: "res_type".to_string(),
        res_name: "res_name".to_string(),
        res_def: vec![
            (
                "unique_name".to_string(),
                ResourcePropertyValue::VString("some_unique_name".to_owned()),
            ),
            (
                "json_property".to_string(),
                ResourcePropertyValue::VJson(JsonValue::Object(vec![
                    (
                        "array".to_string(),
                        JsonValue::Array(vec![
                            JsonValue::Num("1".to_string()),
                            JsonValue::Num("2".to_string()),
                            JsonValue::Num("3".to_string()),
                        ]),
                    ),
                    (
                        "object".to_string(),
                        JsonValue::Object(vec![(
                            "a".to_string(),
                            JsonValue::Str("a".to_string()),
                        )]),
                    ),
                    (
                        "string".to_string(),
                        JsonValue::Str("Just a string with spaces".to_string()),
                    ),
                    ("boolean".to_string(), JsonValue::Boolean(true)),
                ])),
            ),
        ],
    };

    let result = parse_resources(ap_resource).expect("Failed parsing the data");

    assert_eq!(result, ("", vec![expected]));
}

#[test]
fn parse_resource_set() {
    let ap_resource = "resource \"res_type\" \"res_name\" {
            unique_name       = \"some_unique_name\"
            set_property     = toset([\"a\", \"b\"])
        }";

    let expected = Resource {
        res_type: "res_type".to_string(),
        res_name: "res_name".to_string(),
        res_def: vec![
            (
                "unique_name".to_string(),
                ResourcePropertyValue::VString("some_unique_name".to_owned()),
            ),
            (
                "set_property".to_string(),
                ResourcePropertyValue::VSet(vec!["a".to_string(), "b".to_string()]),
            ),
        ],
    };

    let result = parse_resources(ap_resource).expect("Failed parsing the data");

    assert_eq!(result, ("", vec![expected]));
}

#[test]
fn parse_resource_reference() {
    let ap_resource = "resource \"res_type\" \"res_name\" {
            unique_name       = \"some_unique_name\"
            reference_property     = parent_ref_type.parent_ref_name.other
        }";

    let expected = Resource {
        res_type: "res_type".to_string(),
        res_name: "res_name".to_string(),
        res_def: vec![
            (
                "unique_name".to_string(),
                ResourcePropertyValue::VString("some_unique_name".to_owned()),
            ),
            (
                "reference_property".to_string(),
                ResourcePropertyValue::VReference {
                    res_type: "parent_ref_type".to_string(),
                    res_name: "parent_ref_name".to_string(),
                },
            ),
        ],
    };

    let result = parse_resources(ap_resource).expect("Failed parsing the data");

    assert_eq!(result, ("", vec![expected]));
}

#[test]
fn parse_resource_null() {
    let ap_resource = "resource \"res_type\" \"res_name\" {
            unique_name       = \"some_unique_name\"
            null_property     = null
        }";

    let expected = Resource {
        res_type: "res_type".to_string(),
        res_name: "res_name".to_string(),
        res_def: vec![
            (
                "unique_name".to_string(),
                ResourcePropertyValue::VString("some_unique_name".to_owned()),
            ),
            ("null_property".to_string(), ResourcePropertyValue::VNull),
        ],
    };

    let result = parse_resources(ap_resource).expect("Failed parsing the data");

    assert_eq!(result, ("", vec![expected]));
}

#[test]
fn parse_resource_bool() {
    let ap_resource = "resource \"res_type\" \"res_name\" {
            unique_name       = \"some_unique_name\"
            true_property     = true
            false_property     = false
        }";

    let expected = Resource {
        res_type: "res_type".to_string(),
        res_name: "res_name".to_string(),
        res_def: vec![
            (
                "unique_name".to_string(),
                ResourcePropertyValue::VString("some_unique_name".to_owned()),
            ),
            (
                "true_property".to_string(),
                ResourcePropertyValue::VBoolean(true),
            ),
            (
                "false_property".to_string(),
                ResourcePropertyValue::VBoolean(false),
            ),
        ],
    };

    let result = parse_resources(ap_resource).expect("Failed parsing the data");

    assert_eq!(result, ("", vec![expected]));
}

#[test]
fn parse_test() {
    let ap_resource = "resource \"twilio_autopilot_assistants_tasks_v1\" \"development_pre_survey_redirect_function\" {
            unique_name   = \"redirect_function\"
            assistant_sid = twilio_autopilot_assistants_v1.development_pre_survey.sid
            actions = jsonencode({
              \"actions\" : [
                {
                  \"redirect\" : {
                    \"method\" : \"POST\",
                    \"uri\" : \"https://serverless-9971-production.twil.io/autopilotRedirect\"
                  }
                }
              ]
            })
          }";

    let result = parse_resources(ap_resource).expect("Failed parsing the data");

    println!("{:#?}", result);
}
