use resource_parser::err::Ctx;
use resource_parser::json_utils::{json_value, root, JsonValue};

#[test]
fn parse_valid() {
    let data = "  { \"a\"\t: 42,
      \"b\": [ \"x\", \"y\", 12 ] ,
      \"c\": { \"hello\" : \"world !\"
      }
      } ";

    assert!(root(data, 0).is_ok());
}

#[test]
fn parse_invalid() {
    let data = "  { \"aa } ";

    assert!(root(data, 0).is_err());
}

#[test]
fn parse_terraform_json() {
    let data = "{
            \"actions\" : [
              {
                \"say\" : \"Looks like I'm having trouble. Apologies for that. Let's start again, how can I help you today?\"
              },
              { \"listen\" : true }
            ]
          }";

    assert!(root(data, 0).is_ok());
}

#[test]
fn root_consumes_value_and_trailing_whitespace() {
    let data = "  null  x";
    let (pos, v) = root(data, 0).unwrap();
    assert_eq!(v, JsonValue::Null);
    assert_eq!(pos, 8);
}

#[test]
fn root_rejects_bare_scalars() {
    assert!(root("42", 0).is_err());
    assert!(root("\"x\"", 0).is_err());
    assert!(root("true", 0).is_err());
}

#[test]
fn numbers_keep_their_literal_text() {
    let (_, v) = root("[1.5e3, -2, +0.25, 7.]", 0).unwrap();
    assert_eq!(
        v,
        JsonValue::Array(vec![
            JsonValue::Num("1.5e3".to_string()),
            JsonValue::Num("-2".to_string()),
            JsonValue::Num("+0.25".to_string()),
            JsonValue::Num("7.".to_string()),
        ])
    );
    assert_eq!("1.5e3".parse::<f64>().unwrap(), 1500.0);
    assert_eq!("-2".parse::<f64>().unwrap(), -2.0);
    assert_eq!("+0.25".parse::<f64>().unwrap(), 0.25);
}

#[test]
fn duplicate_object_key_overwrites_earlier_value() {
    let (_, v) = root("{\"a\": 1, \"b\": 2, \"a\": 3}", 0).unwrap();
    assert_eq!(
        v,
        JsonValue::Object(vec![
            ("a".to_string(), JsonValue::Num("3".to_string())),
            ("b".to_string(), JsonValue::Num("2".to_string())),
        ])
    );
}

#[test]
fn string_value_keeps_escapes_verbatim() {
    let (_, v) = json_value("\"a\\n b\\\\ c\\\" d\"", 0).unwrap();
    assert_eq!(v, JsonValue::Str("a\\n b\\\\ c\\\" d".to_string()));
}

#[test]
fn unknown_escape_is_fatal_inside_object() {
    let e = root("{\"a\": \"b\\q\"}", 0).unwrap_err();
    assert!(e.fatal);
    assert_eq!(e.labels, vec![Ctx::InString, Ctx::InMap]);
}

#[test]
fn missing_colon_is_fatal_with_map_label() {
    let e = root("{\"a\" 1}", 0).unwrap_err();
    assert!(e.fatal);
    assert_eq!(e.labels, vec![Ctx::InMap]);
}

#[test]
fn unterminated_array_is_fatal() {
    let e = root("[1, 2", 0).unwrap_err();
    assert!(e.fatal);
    assert_eq!(e.labels, vec![Ctx::InArray]);
}

#[test]
fn empty_containers_parse() {
    let (_, v) = root("{}", 0).unwrap();
    assert_eq!(v, JsonValue::Object(vec![]));
    let (_, v) = root("[]", 0).unwrap();
    assert_eq!(v, JsonValue::Array(vec![]));
}
