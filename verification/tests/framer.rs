use log_analyzer::ingest::network_source::NetworkLogSource;

fn extract(buffer: &str) -> Option<(String, String)> {
    NetworkLogSource::try_extracting_json(&buffer.to_string())
}

fn pair(object: &str, rest: &str) -> Option<(String, String)> {
    Some((object.to_string(), rest.to_string()))
}

#[test]
fn extracts_single_object() {
    assert_eq!(extract("{\"message\":\"a\"}\n"), pair("{\"message\":\"a\"}", ""));
}

#[test]
fn empty_buffer_holds_no_object() {
    assert_eq!(extract(""), None);
    assert_eq!(extract("   \n\n"), None);
}

#[test]
fn incomplete_object_is_not_extracted() {
    assert_eq!(extract("{\"message\":\"a\""), None);
    assert_eq!(extract("{\n  \"message\": \"m\",\n"), None);
}

#[test]
fn joins_and_trims_physical_lines() {
    let buffer = "{\n  \"message\": \"m\",\n  \"level\": \"warn\"\n}\n";
    assert_eq!(extract(buffer), pair("{\"message\": \"m\",\"level\": \"warn\"}", ""));
}

#[test]
fn carriage_returns_are_trimmed_with_the_lines() {
    let buffer = "{\"a\":1,\r\n\"b\":2}\r\n";
    assert_eq!(extract(buffer), pair("{\"a\":1,\"b\":2}", ""));
}

#[test]
fn braces_inside_strings_do_not_count() {
    let buffer = "{\"k\":\"}{\"}{\"n\":2}";
    assert_eq!(extract(buffer), pair("{\"k\":\"}{\"}", "{\"n\":2}"));
}

#[test]
fn escaped_quote_does_not_end_a_string() {
    let buffer = "{\"k\":\"a\\\"}\"} tail";
    assert_eq!(extract(buffer), pair("{\"k\":\"a\\\"}\"}", " tail"));
}

#[test]
fn escaped_backslash_before_a_quote_ends_the_string() {
    let buffer = "{\"k\":\"a\\\\\"}x";
    assert_eq!(extract(buffer), pair("{\"k\":\"a\\\\\"}", "x"));
}

#[test]
fn nested_objects_close_at_the_outermost_brace() {
    let buffer = "{\"a\":{\"b\":{\"c\":1}}}{\"d\":2}";
    assert_eq!(extract(buffer), pair("{\"a\":{\"b\":{\"c\":1}}}", "{\"d\":2}"));
}

#[test]
fn noise_before_the_first_brace_is_dropped() {
    assert_eq!(extract("noise {\"a\":1} more"), pair("{\"a\":1}", " more"));
}

#[test]
fn lone_closing_brace_is_ignored() {
    assert_eq!(extract("} {\"a\":1}"), pair("{\"a\":1}", ""));
}

#[test]
fn quote_before_the_object_opens_a_string() {
    assert_eq!(extract("\" {\"a\":1}"), None);
}

#[test]
fn candidate_that_is_not_json_gives_nothing() {
    assert_eq!(extract("{not json} {\"a\":1}"), None);
}

#[test]
fn remainder_keeps_inner_spacing() {
    assert_eq!(extract("{\"a\":1}  {\"b\":2}  \n"), pair("{\"a\":1}", "  {\"b\":2}"));
}

#[test]
fn non_ascii_text_is_framed_by_characters() {
    let buffer = "\u{e9}t\u{e9} {\"m\":\"\u{4f60}\u{597d}\"}\u{a0}\n";
    assert_eq!(extract(buffer), pair("{\"m\":\"\u{4f60}\u{597d}\"}", ""));
}

#[test]
fn draining_a_stream_gives_every_object_in_order() {
    let mut buffer = " \n{\"n\":1}\n\n  {\"n\":2} \t{\"n\":3}\r\n \n".to_string();
    let mut objects: Vec<String> = Vec::new();
    while let Some((object, rest)) = NetworkLogSource::try_extracting_json(&buffer) {
        objects.push(object);
        buffer = rest;
    }
    assert_eq!(objects, vec!["{\"n\":1}", "{\"n\":2}", "{\"n\":3}"]);
    assert_eq!(buffer, "");
}

#[test]
fn draining_a_stream_joins_the_lines_of_each_object() {
    let mut buffer =
        "\n{\n  \"n\": 1,\n  \"s\": \"a  b\"\n}\n \t\n{\"n\":2}\n{\r\n\"n\" : 3 }\n\n".to_string();
    let mut objects: Vec<String> = Vec::new();
    while let Some((object, rest)) = NetworkLogSource::try_extracting_json(&buffer) {
        objects.push(object);
        buffer = rest;
    }
    assert_eq!(objects, vec!["{\"n\": 1,\"s\": \"a  b\"}", "{\"n\":2}", "{\"n\" : 3 }"]);
    assert_eq!(buffer, "");
    assert_eq!(NetworkLogSource::try_extracting_json(&buffer), None);
}
