use qbank::parser::{
    extract_json, find_question, parse_examples_response, parse_exercises_response, ParseError,
};

#[test]
fn extract_json_cuts_braced_span() {
    assert_eq!(extract_json("prefix {\"a\":1} suffix"), "{\"a\":1}");
}

#[test]
fn extract_json_returns_input_without_braces() {
    assert_eq!(extract_json("no braces"), "no braces");
}

#[test]
fn extract_json_spans_first_open_to_last_close() {
    assert_eq!(extract_json("x {\"a\": {\"b\": 2}} y"), "{\"a\": {\"b\": 2}}");
    assert_eq!(extract_json("{1} and {2}"), "{1} and {2}");
}

#[test]
fn extract_json_with_close_before_open_is_empty() {
    assert_eq!(extract_json("} nothing {"), "");
}

#[test]
fn parses_examples_payload() {
    let reply = "Sure! Here is the JSON:\n{\"examples\": [{\"question\": \"1+1?\", \"answer\": \"2\", \"analysis\": \"add\", \"knowledge_points\": [\"addition\"], \"chapter\": \"ch1\", \"section\": \"s1\"}]}";
    let qs = parse_examples_response(reply, "file9", 3).unwrap();
    assert_eq!(qs.len(), 1);
    let q = &qs[0];
    assert_eq!(q.id, "file9_3_example_0");
    assert_eq!(q.file_id, "file9");
    assert_eq!(q.question_type, "example");
    assert_eq!(q.question_text, "1+1?");
    assert_eq!(q.answer, "2");
    assert_eq!(q.analysis, "add");
    assert_eq!(q.knowledge_points, vec!["addition".to_string()]);
    assert_eq!(q.chapter, "ch1");
    assert_eq!(q.section, "s1");
    assert_eq!(q.page_number, 3);
    assert!(q.has_original_answer);
}

#[test]
fn optional_fields_default_to_empty() {
    let reply = "{\"examples\": [{\"question\": \"q\", \"answer\": \"a\"}]}";
    let qs = parse_examples_response(reply, "f", 1).unwrap();
    assert_eq!(qs[0].analysis, "");
    assert_eq!(qs[0].chapter, "");
    assert_eq!(qs[0].section, "");
    assert!(qs[0].knowledge_points.is_empty());
}

#[test]
fn null_optional_fields_are_accepted() {
    let reply =
        "{\"examples\": [{\"question\": \"q\", \"answer\": \"a\", \"analysis\": null, \"knowledge_points\": null}]}";
    let qs = parse_examples_response(reply, "f", 1).unwrap();
    assert_eq!(qs[0].analysis, "");
    assert!(qs[0].knowledge_points.is_empty());
}

#[test]
fn ids_are_deterministic_and_indexed() {
    let reply = "{\"exercises\": [{\"question\": \"q1\", \"answer\": \"a1\"}, {\"question\": \"q2\", \"answer\": \"a2\"}]}";
    let qs = parse_exercises_response(reply, "doc", 12).unwrap();
    assert_eq!(qs.len(), 2);
    assert_eq!(qs[0].id, "doc_12_exercise_0");
    assert_eq!(qs[1].id, "doc_12_exercise_1");
    assert!(!qs[0].has_original_answer);
    assert_eq!(qs[0].question_type, "exercise");
    let again = parse_exercises_response(reply, "doc", 12).unwrap();
    assert_eq!(again[0].id, qs[0].id);
}

#[test]
fn invalid_json_is_a_syntax_error() {
    assert_eq!(
        parse_examples_response("not json at all", "f", 1).unwrap_err(),
        ParseError::Syntax
    );
    assert_eq!(
        parse_examples_response("{\"examples\": [", "f", 1).unwrap_err(),
        ParseError::Syntax
    );
}

#[test]
fn wrong_shapes_are_schema_errors() {
    // missing the examples key
    assert_eq!(
        parse_examples_response("{\"items\": []}", "f", 1).unwrap_err(),
        ParseError::Schema
    );
    // examples is not an array
    assert_eq!(
        parse_examples_response("{\"examples\": 5}", "f", 1).unwrap_err(),
        ParseError::Schema
    );
    // a record missing its answer
    assert_eq!(
        parse_examples_response("{\"examples\": [{\"question\": \"q\"}]}", "f", 1).unwrap_err(),
        ParseError::Schema
    );
    // analysis of the wrong type
    assert_eq!(
        parse_examples_response(
            "{\"examples\": [{\"question\": \"q\", \"answer\": \"a\", \"analysis\": 7}]}",
            "f",
            1
        )
        .unwrap_err(),
        ParseError::Schema
    );
    // a knowledge point that is not a string
    assert_eq!(
        parse_examples_response(
            "{\"examples\": [{\"question\": \"q\", \"answer\": \"a\", \"knowledge_points\": [1]}]}",
            "f",
            1
        )
        .unwrap_err(),
        ParseError::Schema
    );
    // the exercises parser wants its own key
    assert_eq!(
        parse_exercises_response("{\"examples\": []}", "f", 1).unwrap_err(),
        ParseError::Schema
    );
}

#[test]
fn unknown_fields_are_ignored() {
    let reply = "{\"examples\": [{\"question\": \"q\", \"answer\": \"a\", \"difficulty\": 3}], \"note\": true}";
    let qs = parse_examples_response(reply, "f", 1).unwrap();
    assert_eq!(qs.len(), 1);
}

#[test]
fn find_question_by_id() {
    let reply = "{\"exercises\": [{\"question\": \"q1\", \"answer\": \"a1\"}, {\"question\": \"q2\", \"answer\": \"a2\"}]}";
    let qs = parse_exercises_response(reply, "doc", 1).unwrap();
    let hit = find_question(&qs, "doc_1_exercise_1").unwrap();
    assert_eq!(hit.question_text, "q2");
    assert!(find_question(&qs, "doc_1_exercise_9").is_none());
}
