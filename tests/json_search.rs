use std::str::FromStr;

use json_search::json_path::path_part::PathPart;
use json_search::json_path::JsonPath;
use json_search::json_search::search_part::SearchPart;
use json_search::json_search::{JsonSearch, JsonSearchParseError, JsonSearchResolveError};
use json_search::json_value::JsonValue;

fn num(text: &str) -> JsonValue {
    JsonValue::Number(text.to_string())
}

fn obj(members: Vec<(&str, JsonValue)>) -> JsonValue {
    JsonValue::Object(members.into_iter().map(|(k, v)| (k.to_string(), v)).collect())
}

fn arr(items: Vec<JsonValue>) -> JsonValue {
    JsonValue::Array(items)
}

fn nums(texts: &[&str]) -> JsonValue {
    arr(texts.iter().map(|t| num(t)).collect())
}

fn skey(k: &str) -> SearchPart {
    SearchPart::Key(k.to_string())
}

#[test]
fn correctly_formatted_json_search_strings_are_parsed_correctly() {
    assert_eq!(JsonSearch::from_str("$").unwrap(), JsonSearch::from_parts(vec![], false));
    assert_eq!(JsonSearch::from_str("$.a").unwrap(), JsonSearch::from_parts(vec![skey("a")], false));
    assert_eq!(JsonSearch::from_str("$.a.b").unwrap(), JsonSearch::from_parts(vec![skey("a"), skey("b")], false));
    assert_eq!(JsonSearch::from_str("$.0").unwrap(), JsonSearch::from_parts(vec![SearchPart::Index(0)], false));
    assert_eq!(
        JsonSearch::from_str("$.*.a").unwrap(),
        JsonSearch::from_parts(vec![SearchPart::Wildcard, skey("a")], false)
    );
    assert_eq!(
        JsonSearch::from_str("?.*.a").unwrap(),
        JsonSearch::from_parts(vec![SearchPart::Wildcard, skey("a")], true)
    );
}

#[test]
fn incorrectly_formatted_json_search_strings_return_errors() {
    assert_eq!(JsonSearch::from_str(""), Err(JsonSearchParseError::MissingRoot));
    assert_eq!(JsonSearch::from_str("!"), Err(JsonSearchParseError::IncorrectRoot("!".to_string())));
}

#[test]
fn root_value_is_resolved_correctly() {
    let target_value = JsonValue::String("Hello world".to_string());
    let search = JsonSearch::default();
    let result = search.resolve(&target_value);
    assert_eq!(result, Ok(vec![JsonPath::from([])]));
}

#[test]
fn nested_object_value_is_resolved_correctly() {
    let target_value = obj(vec![("a", num("10"))]);
    let search = JsonSearch::from(["a"]);
    let result = search.resolve(&target_value);
    assert_eq!(result, Ok(vec![JsonPath::from(["a"])]));
}

#[test]
fn deeply_nested_object_value_is_resolved_correctly() {
    let target_value = obj(vec![("a", obj(vec![("b", obj(vec![("c", obj(vec![("d", num("10"))]))]))]))]);
    let search = JsonSearch::from(["a", "b", "c", "d"]);
    let result = search.resolve(&target_value);
    assert_eq!(result, Ok(vec![JsonPath::from(["a", "b", "c", "d"])]));
}

#[test]
fn array_exact_index_is_resolved_correctly() {
    let target_value = nums(&["10"]);
    let search = JsonSearch::from(["0"]);
    let result = search.resolve(&target_value);
    assert_eq!(result, Ok(vec![JsonPath::from(["0"])]));
}

#[test]
fn deeply_nested_array_exact_index_is_resolved_correctly() {
    let target_value = arr(vec![arr(vec![
        num("10"),
        arr(vec![num("20"), arr(vec![num("30"), nums(&["40"])])]),
    ])]);
    let search = JsonSearch::from(["0", "1", "1", "1", "0"]);
    let result = search.resolve(&target_value);
    assert_eq!(result, Ok(vec![JsonPath::from(["0", "1", "1", "1", "0"])]));
}

#[test]
fn multiple_values_in_array_wildcard_are_resolved_correctly_using_a_wildcard() {
    let target_value = nums(&["10", "20", "30", "40", "50"]);
    let search = JsonSearch::from(["*"]);
    let result = search.resolve(&target_value);
    assert_eq!(
        result,
        Ok(vec![
            JsonPath::from(["0"]),
            JsonPath::from(["1"]),
            JsonPath::from(["2"]),
            JsonPath::from(["3"]),
            JsonPath::from(["4"]),
        ])
    );
}

#[test]
fn multiple_nested_value_in_array_wildcard_are_resolved_correctly() {
    let target_value = arr(vec![
        obj(vec![("a", num("10"))]),
        obj(vec![("a", num("20"))]),
        obj(vec![("a", num("30"))]),
        obj(vec![("a", num("40"))]),
        obj(vec![("a", num("50"))]),
    ]);
    let search = JsonSearch::from(["*", "a"]);
    let result = search.resolve(&target_value);
    assert_eq!(
        result,
        Ok(vec![
            JsonPath::from(["0", "a"]),
            JsonPath::from(["1", "a"]),
            JsonPath::from(["2", "a"]),
            JsonPath::from(["3", "a"]),
            JsonPath::from(["4", "a"]),
        ])
    );
}

#[test]
fn different_nested_value_in_array_wildcard_are_resolved_correctly() {
    let target_value = arr(vec![
        obj(vec![("a", num("10"))]),
        obj(vec![("a", num("20"))]),
        obj(vec![("a", num("30"))]),
        obj(vec![("b", num("40"))]),
        obj(vec![("b", num("50"))]),
    ]);
    let search = JsonSearch::from(["*", "a"]);
    let result = search.resolve(&target_value);
    assert_eq!(
        result,
        Ok(vec![JsonPath::from(["0", "a"]), JsonPath::from(["1", "a"]), JsonPath::from(["2", "a"])])
    );
}

#[test]
fn different_nested_value_types_in_array_wildcard_are_resolved_correctly() {
    let target_value = arr(vec![
        obj(vec![("a", obj(vec![("b", num("10"))]))]),
        obj(vec![("a", obj(vec![("b", num("20"))]))]),
        obj(vec![("a", obj(vec![("b", num("30"))]))]),
        obj(vec![("a", num("40"))]),
        obj(vec![("a", num("50"))]),
    ]);
    let search = JsonSearch::from(["*", "a", "b"]);
    let result = search.resolve(&target_value);
    assert_eq!(
        result,
        Ok(vec![
            JsonPath::from(["0", "a", "b"]),
            JsonPath::from(["1", "a", "b"]),
            JsonPath::from(["2", "a", "b"]),
        ])
    );
}

#[test]
fn nested_array_wildcards_are_resolved_correctly() {
    let target_value = arr(vec![
        obj(vec![("a", nums(&["10", "20"]))]),
        obj(vec![("a", nums(&["10", "20"]))]),
        obj(vec![("b", nums(&["10", "20"]))]),
    ]);
    let search = JsonSearch::from(["*", "a", "*"]);
    let result = search.resolve(&target_value);
    assert_eq!(
        result,
        Ok(vec![
            JsonPath::from(["0", "a", "0"]),
            JsonPath::from(["0", "a", "1"]),
            JsonPath::from(["1", "a", "0"]),
            JsonPath::from(["1", "a", "1"]),
        ])
    );
}

#[test]
fn multiple_values_in_object_wildcard_are_resolved_correctly_using_a_wildcard() {
    let target_value = obj(vec![
        ("a", num("10")),
        ("b", num("20")),
        ("c", num("30")),
        ("d", num("40")),
        ("e", num("50")),
    ]);
    let search = JsonSearch::from(["*"]);
    let result = search.resolve(&target_value);
    assert_eq!(
        result,
        Ok(vec![
            JsonPath::from(["a"]),
            JsonPath::from(["b"]),
            JsonPath::from(["c"]),
            JsonPath::from(["d"]),
            JsonPath::from(["e"]),
        ])
    );
}

#[test]
fn multiple_nested_value_in_object_wildcard_are_resolved_correctly() {
    let target_value = obj(vec![
        ("a", nums(&["10"])),
        ("b", nums(&["20"])),
        ("c", nums(&["30"])),
        ("d", nums(&["40"])),
        ("e", nums(&["50"])),
    ]);
    let search = JsonSearch::from(["*", "0"]);
    let result = search.resolve(&target_value);
    assert_eq!(
        result,
        Ok(vec![
            JsonPath::from(["a", "0"]),
            JsonPath::from(["b", "0"]),
            JsonPath::from(["c", "0"]),
            JsonPath::from(["d", "0"]),
            JsonPath::from(["e", "0"]),
        ])
    );
}

#[test]
fn different_nested_value_in_object_wildcard_are_resolved_correctly() {
    let target_value = obj(vec![
        ("a", nums(&["10", "60"])),
        ("b", nums(&["20", "70"])),
        ("c", nums(&["30", "80"])),
        ("d", nums(&["40"])),
        ("e", nums(&["50"])),
    ]);
    let search = JsonSearch::from(["*", "1"]);
    let result = search.resolve(&target_value);
    assert_eq!(
        result,
        Ok(vec![JsonPath::from(["a", "1"]), JsonPath::from(["b", "1"]), JsonPath::from(["c", "1"])])
    );
}

#[test]
fn nested_object_wildcards_are_resolved_correctly() {
    let target_value = obj(vec![
        ("a", obj(vec![("b", num("10")), ("c", num("20"))])),
        ("b", obj(vec![("d", num("10")), ("e", num("20"))])),
        ("c", num("10")),
    ]);
    let search = JsonSearch::from(["*", "*"]);
    let result = search.resolve(&target_value);
    assert_eq!(
        result,
        Ok(vec![
            JsonPath::from(["a", "b"]),
            JsonPath::from(["a", "c"]),
            JsonPath::from(["b", "d"]),
            JsonPath::from(["b", "e"]),
        ])
    );
}

#[test]
fn required_search_returns_an_err_when_a_path_does_not_exist() {
    assert_eq!(
        JsonSearch::from(["b"]).resolve(&obj(vec![("a", num("10"))])),
        Err(JsonSearchResolveError::MissingRequiredKey(JsonPath::default(), "b".to_string()))
    );
    assert_eq!(
        JsonSearch::from(["b"]).resolve(&JsonValue::String("hello world".to_string())),
        Err(JsonSearchResolveError::NotAnObject(JsonPath::default()))
    );
    assert_eq!(
        JsonSearch::from(["0"]).resolve(&obj(vec![("a", num("10"))])),
        Err(JsonSearchResolveError::NotAnArray(JsonPath::default()))
    );
}

#[test]
fn wildcard_over_array_lists_positions_in_order() {
    let result = JsonSearch::from(["*"]).resolve(&nums(&["10", "20", "30"]));
    assert_eq!(result, Ok(vec![JsonPath::from(["0"]), JsonPath::from(["1"]), JsonPath::from(["2"])]));
}

#[test]
fn wildcard_over_object_keeps_storage_order() {
    let result = JsonSearch::from(["*"]).resolve(&obj(vec![("b", num("2")), ("a", num("1"))]));
    assert_eq!(result, Ok(vec![JsonPath::from(["b"]), JsonPath::from(["a"])]));
}

#[test]
fn wildcard_drops_branches_that_do_not_match() {
    let target = arr(vec![obj(vec![("a", num("1"))]), obj(vec![("b", num("2"))])]);
    let result = JsonSearch::from(["*", "a"]).resolve(&target);
    assert_eq!(result, Ok(vec![JsonPath::from(["0", "a"])]));
}

#[test]
fn required_and_optional_searches_differ_on_missing_members() {
    let target = obj(vec![("a", num("1"))]);
    assert_eq!(
        JsonSearch::new(&["b"]).resolve(&target),
        Err(JsonSearchResolveError::MissingRequiredKey(JsonPath::default(), "b".to_string()))
    );
    assert_eq!(JsonSearch::new_optional(&["b"]).resolve(&target), Ok(vec![]));
}

#[test]
fn optional_search_tolerates_missing_positions_but_not_shapes() {
    let target = nums(&["1"]);
    assert_eq!(JsonSearch::new_optional(&["5"]).resolve(&target), Ok(vec![]));
    assert_eq!(
        JsonSearch::new(&["5"]).resolve(&target),
        Err(JsonSearchResolveError::MissingRequiredIndex(JsonPath::default(), 5))
    );
    assert_eq!(
        JsonSearch::new_optional(&["a"]).resolve(&target),
        Err(JsonSearchResolveError::NotAnObject(JsonPath::default()))
    );
    assert_eq!(
        JsonSearch::new_optional(&["*"]).resolve(&num("1")),
        Err(JsonSearchResolveError::NotAnArrayOrObject(JsonPath::default()))
    );
}

#[test]
fn nested_wildcards_form_the_cross_product() {
    let target = arr(vec![obj(vec![("a", nums(&["1", "2"]))]), obj(vec![("a", nums(&["3"]))])]);
    let result = JsonSearch::from(["*", "a", "*"]).resolve(&target);
    assert_eq!(
        result,
        Ok(vec![JsonPath::from(["0", "a", "0"]), JsonPath::from(["0", "a", "1"]), JsonPath::from(["1", "a", "0"])])
    );
}

#[test]
fn errors_carry_the_path_reached() {
    let target = obj(vec![("a", obj(vec![("b", num("1"))]))]);
    assert_eq!(
        JsonSearch::from(["a", "b", "c"]).resolve(&target),
        Err(JsonSearchResolveError::NotAnObject(JsonPath::from(["a", "b"])))
    );
    assert_eq!(
        JsonSearch::from(["a", "x"]).resolve(&target),
        Err(JsonSearchResolveError::MissingRequiredKey(JsonPath::from(["a"]), "x".to_string()))
    );
}

#[test]
fn search_without_wildcards_finds_at_most_one_path() {
    let target = obj(vec![("a", nums(&["1", "2"]))]);
    assert_eq!(JsonSearch::from(["a", "1"]).resolve(&target), Ok(vec![JsonPath::from(["a", "1"])]));
    assert_eq!(JsonSearch::new_optional(&["a", "9"]).resolve(&target), Ok(vec![]));
}

#[test]
fn search_text_runs_steps_together() {
    assert_eq!(JsonSearch::new_optional(&["*", "a", "3"]).to_string(), "?*a3");
    assert_eq!(JsonSearch::default().to_string(), "$");
    assert_eq!(SearchPart::Wildcard.to_string(), "*");
    assert_eq!(SearchPart::Index(42).to_string(), "42");
}

#[test]
fn search_tokens_read_as_wildcards_positions_or_names() {
    assert_eq!(SearchPart::from("*".to_string()), SearchPart::Wildcard);
    assert_eq!(SearchPart::from("**".to_string()), skey("**"));
    assert_eq!(SearchPart::from("3".to_string()), SearchPart::Index(3));
    assert_eq!(SearchPart::from("x".to_string()), skey("x"));
}

#[test]
fn search_parse_skips_empty_tokens_and_rejects_other_roots() {
    assert_eq!(JsonSearch::from_str("?..a"), Ok(JsonSearch::from_parts(vec![skey("a")], true)));
    assert_eq!(JsonSearch::from_str("$$"), Err(JsonSearchParseError::IncorrectRoot("$$".to_string())));
    assert!(JsonSearch::from_str("?").unwrap().is_optional());
    assert_eq!(JsonSearch::from_str("$.a").unwrap().parts(), &vec![skey("a")]);
}

#[test]
fn found_paths_resolve_in_the_document() {
    let target = arr(vec![obj(vec![("a", num("1"))]), obj(vec![("a", num("2"))])]);
    let found = JsonSearch::from(["*", "a"]).resolve(&target).unwrap();
    let values: Vec<&JsonValue> = found.iter().map(|p| p.resolve(&target).unwrap()).collect();
    assert_eq!(values, vec![&num("1"), &num("2")]);
    assert_eq!(found[0].parts(), &vec![PathPart::Index(0), PathPart::Key("a".to_string())]);
}
