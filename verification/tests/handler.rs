use raytracer::json_parser::{
    contains_key, parse_integer, parse_scalar, Field, FieldError, JsonHandler, NumberError,
};

fn member(key: &str, text: Option<&str>) -> Field {
    Field {
        key: key.to_string(),
        text: text.map(|t| t.to_string()),
        json: match text {
            Some(t) => format!("\"{t}\""),
            None => "{}".to_string(),
        },
    }
}

fn scene() -> JsonHandler {
    JsonHandler::new(vec![
        member("MaxRecursionDepth", Some("6")),
        member("BackgroundColor", Some("0 0 0")),
        member("Lights", None),
        member("Broken", Some("six")),
        member("Cameras", None),
    ])
}

#[test]
fn an_attribute_is_taken_from_its_member() {
    let mut handler = scene();
    let mut depth: Option<i32> = None;
    assert_eq!(handler.get_optional(&mut depth, "MaxRecursionDepth", parse_integer), Ok(()));
    assert_eq!(depth, Some(6));
    assert!(contains_key(&handler.handled_keys, "MaxRecursionDepth"));
}

#[test]
fn a_missing_attribute_is_no_error_and_changes_nothing() {
    let mut handler = scene();
    let mut depth: Option<i32> = Some(3);
    assert_eq!(handler.get_optional(&mut depth, "ShadowRayEpsilon", parse_integer), Ok(()));
    assert_eq!(depth, Some(3));
    assert!(handler.handled_keys.is_empty());
}

#[test]
fn a_member_that_holds_no_string_is_refused() {
    let mut handler = scene();
    let mut depth: Option<i32> = Some(3);
    assert_eq!(
        handler.get_optional(&mut depth, "Lights", parse_integer),
        Err(FieldError::ExpectedString)
    );
    assert_eq!(depth, Some(3));
    assert!(handler.handled_keys.is_empty());
}

#[test]
fn a_text_that_the_parser_refuses_is_refused() {
    let mut handler = scene();
    let mut depth: Option<i32> = Some(3);
    assert_eq!(
        handler.get_optional(&mut depth, "Broken", parse_integer),
        Err(FieldError::Parse(NumberError::InvalidDigit))
    );
    assert_eq!(depth, Some(3));
    assert!(handler.handled_keys.is_empty());
    let mut index: Option<usize> = None;
    assert_eq!(
        handler.get_optional(&mut index, "BackgroundColor", parse_scalar::<usize>),
        Err(FieldError::Parse(NumberError::InvalidDigit))
    );
    assert_eq!(index, None);
}

#[test]
fn a_subobject_is_found_and_counts_as_handled() {
    let mut handler = scene();
    assert_eq!(handler.get_subobject("Lights"), Some(2));
    assert_eq!(handler.get_subobject("Materials"), None);
    assert_eq!(handler.handled_keys, vec!["Lights".to_string()]);
    assert_eq!(handler.get_subobject("Lights"), Some(2));
    assert_eq!(handler.handled_keys, vec!["Lights".to_string()]);
    assert_eq!(handler.find("Cameras"), Some(4));
    assert_eq!(handler.find("cameras"), None);
}

#[test]
fn the_keys_that_nobody_asked_for_are_told_in_order() {
    let mut handler = scene();
    assert_eq!(
        handler.warn_extra(),
        vec!["MaxRecursionDepth", "BackgroundColor", "Lights", "Broken", "Cameras"]
    );
    let mut depth: Option<i32> = None;
    handler.get_optional(&mut depth, "MaxRecursionDepth", parse_integer).unwrap();
    handler.get_subobject("Lights");
    let _ = handler.get_optional(&mut depth, "Broken", parse_integer);
    assert_eq!(handler.warn_extra(), vec!["BackgroundColor", "Broken", "Cameras"]);
    assert!(JsonHandler::new(vec![]).warn_extra().is_empty());
}

#[test]
fn of_two_members_with_one_key_the_first_counts() {
    let mut handler = JsonHandler::new(vec![member("A", Some("1")), member("A", Some("2"))]);
    let mut value: Option<i32> = None;
    assert_eq!(handler.get_optional(&mut value, "A", parse_integer), Ok(()));
    assert_eq!(value, Some(1));
    assert!(handler.warn_extra().is_empty());
}
