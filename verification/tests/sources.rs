use log_analyzer::error::LogAnalyzerError;
use log_analyzer::ingest::file_source::FileLogSource;
use log_analyzer::ingest::network_source::NetworkLogSource;
use log_analyzer::ingest::{LogLine, Source, SourceState};
use log_analyzer::parser::json::JsonParser;
use log_analyzer::parser::plain_text::PlainTextParser;
use log_analyzer::parser::registry::{ParserRegistry, RegisteredParser};
use log_analyzer::parser::{Level, LogParser};
use log_analyzer::json::{JsonValue, Metadata};
use log_analyzer::time::Timestamp;

fn now() -> Timestamp {
    Timestamp { secs: 1_700_000_000, nanos: 0 }
}

fn registry() -> ParserRegistry {
    let mut registry = ParserRegistry::new();
    registry.register(RegisteredParser::PlainText(PlainTextParser::new()));
    registry.register(RegisteredParser::Json(JsonParser::new()));
    registry
}

fn framed(content: &str, source: &str) -> Result<Option<LogLine>, LogAnalyzerError> {
    Ok(Some(LogLine { content: content.to_string(), source: source.to_string(), timestamp: now() }))
}

#[test]
fn file_source_frames_one_object_per_line() {
    let mut source = FileLogSource::new("./example.log".to_string());
    source.opened();
    let first = source.accept_line("{\"message\":\"hi\",\"level\":\"info\"}\n", now());
    let second = source.accept_line("{\"message\":\"bye\",\"level\":\"ERROR\"}\n", now());
    assert_eq!(first, framed("{\"message\":\"hi\",\"level\":\"info\"}", "./example.log"));
    assert_eq!(second, framed("{\"message\":\"bye\",\"level\":\"ERROR\"}", "./example.log"));
    assert_eq!(source.end_of_stream(now()), Ok(None));

    let registry = registry();
    let hi = registry.parse(first.unwrap().unwrap()).unwrap();
    let bye = registry.parse(second.unwrap().unwrap()).unwrap();
    assert_eq!((hi.message.as_str(), hi.level), ("hi", Some(Level::Info)));
    assert_eq!((bye.message.as_str(), bye.level), ("bye", Some(Level::Error)));
}

#[test]
fn file_source_gathers_a_pretty_printed_object() {
    let mut source = FileLogSource::new("f".to_string());
    source.opened();
    assert_eq!(source.accept_line("{\n", now()), Ok(None));
    assert_eq!(source.accept_line("  \"message\": \"m\",\n", now()), Ok(None));
    assert_eq!(source.buffer(), "{\n  \"message\": \"m\",\n");
    assert_eq!(source.accept_line("  \"level\": \"warn\"\n", now()), Ok(None));
    let record = source.accept_line("}\n", now());
    assert_eq!(record, framed("{\n  \"message\": \"m\",\n  \"level\": \"warn\"\n}", "f"));
    assert_eq!(source.buffer(), "");
    let log = registry().parse(record.unwrap().unwrap()).unwrap();
    assert_eq!(log.level, Some(Level::Warn));
    assert_eq!(log.message, "m");
}

#[test]
fn file_source_does_not_hand_on_a_partial_buffer() {
    let mut source = FileLogSource::new("f".to_string());
    source.opened();
    assert_eq!(source.accept_line("{\"a\":\n", now()), Ok(None));
    assert_eq!(source.end_of_stream(now()), Ok(None));
    assert_eq!(source.buffer(), "{\"a\":\n");
    assert_eq!(source.state(), SourceState::Open);
    assert_eq!(source.end_of_stream(now()), Ok(None));
}

#[test]
fn file_source_frames_any_json_value() {
    let mut source = FileLogSource::new("f".to_string());
    source.opened();
    assert_eq!(source.accept_line(" 42 \n", now()), framed("42", "f"));
    assert_eq!(source.accept_line("plain\n", now()), Ok(None));
    assert_eq!(source.accept_line("{}\n", now()), Ok(None));
    assert_eq!(source.buffer(), "plain\n{}\n");
}

#[test]
fn source_that_is_not_open_fails() {
    let mut file = FileLogSource::new("f".to_string());
    assert_eq!(file.state(), SourceState::Unopened);
    assert_eq!(file.accept_line("{}\n", now()), Err(LogAnalyzerError::SourceNotInitialized));
    assert_eq!(file.end_of_stream(now()), Err(LogAnalyzerError::SourceNotInitialized));
    assert_eq!(file.close(), Err(LogAnalyzerError::SourceNotInitialized));
    assert_eq!(file.state(), SourceState::Unopened);

    let mut network = NetworkLogSource::new("127.0.0.1:8888".to_string());
    assert_eq!(network.accept_line("{}\n", now()), Err(LogAnalyzerError::SourceNotInitialized));
    assert_eq!(network.pending(now()), Err(LogAnalyzerError::SourceNotInitialized));
    assert_eq!(network.end_of_stream(now()), Err(LogAnalyzerError::SourceNotInitialized));
    assert_eq!(network.close(), Err(LogAnalyzerError::SourceNotInitialized));
    assert_eq!(network.buffer(), "");
}

#[test]
fn closing_drops_the_buffer_and_may_be_repeated() {
    let mut file = FileLogSource::new("f".to_string());
    file.opened();
    assert_eq!(file.accept_line("{\n", now()), Ok(None));
    assert_eq!(file.close(), Ok(()));
    assert_eq!(file.state(), SourceState::Closed);
    assert_eq!(file.buffer(), "");
    assert_eq!(file.close(), Ok(()));
    assert_eq!(file.accept_line("{}\n", now()), Err(LogAnalyzerError::SourceNotInitialized));

    let mut network = NetworkLogSource::new("a".to_string());
    network.opened();
    assert_eq!(network.accept_line("{\n", now()), Ok(None));
    assert_eq!(network.close(), Ok(()));
    assert_eq!(network.close(), Ok(()));
    assert_eq!(network.buffer(), "");
    assert_eq!(network.state(), SourceState::Closed);
    assert_eq!(network.accept_line("x\n", now()), Err(LogAnalyzerError::SourceNotInitialized));
}

#[test]
fn network_source_frames_json_and_plain_lines() {
    let mut source = NetworkLogSource::new("127.0.0.1:8888".to_string());
    source.opened();
    let label = "network:127.0.0.1:8888";
    let first =
        source.accept_line("{\"message\":\"a\",\"level\":\"info\",\"metadata\":{\"x\":1}}\n", now());
    assert_eq!(
        first,
        framed("{\"message\":\"a\",\"level\":\"info\",\"metadata\":{\"x\":1}}", label)
    );
    assert_eq!(source.pending(now()), Ok(None));
    let second = source.accept_line("plain line without braces\n", now());
    assert_eq!(second, framed("plain line without braces", label));
    assert_eq!(source.end_of_stream(now()), Ok(None));

    let registry = registry();
    let a = registry.parse(first.unwrap().unwrap()).unwrap();
    assert_eq!(a.message, "a");
    assert_eq!(a.level, Some(Level::Info));
    assert_eq!(
        a.metadata,
        Metadata { fields: vec![("metadata".to_string(), JsonValue::Raw("{\"x\":1}".to_string()))] }
    );
    let plain = registry.parse(second.unwrap().unwrap()).unwrap();
    assert_eq!(plain.message, "plain line without braces");
    assert_eq!(plain.level, None);
    assert_eq!(plain.metadata, Metadata::new());
}

#[test]
fn network_source_gathers_a_pretty_printed_object_over_five_reads() {
    let mut source = NetworkLogSource::new("a".to_string());
    source.opened();
    let mut records = Vec::new();
    for chunk in ["{\n", "  \"message\": \"m\",\n", "  \"level\": \"warn\"\n", "}\n"] {
        assert_eq!(source.pending(now()), Ok(None));
        if let Some(line) = source.accept_line(chunk, now()).unwrap() {
            records.push(line);
        }
    }
    assert_eq!(source.pending(now()), Ok(None));
    assert_eq!(source.end_of_stream(now()), Ok(None));
    assert_eq!(records.len(), 1);
    assert_eq!(records[0].content, "{\"message\": \"m\",\"level\": \"warn\"}");
    let log = registry().parse(records.pop().unwrap()).unwrap();
    assert_eq!(log.level, Some(Level::Warn));
}

#[test]
fn network_source_hands_on_several_objects_of_one_line() {
    let mut source = NetworkLogSource::new("a".to_string());
    source.opened();
    assert_eq!(source.accept_line("{\"n\":1} {\"n\":2}{\"n\":3}\n", now()), framed("{\"n\":1}", "network:a"));
    assert_eq!(source.buffer(), " {\"n\":2}{\"n\":3}");
    assert_eq!(source.pending(now()), framed("{\"n\":2}", "network:a"));
    assert_eq!(source.pending(now()), framed("{\"n\":3}", "network:a"));
    assert_eq!(source.pending(now()), Ok(None));
    assert_eq!(source.buffer(), "");
}

#[test]
fn network_source_flushes_its_buffer_at_the_end() {
    let mut source = NetworkLogSource::new("a".to_string());
    source.opened();
    assert_eq!(source.accept_line("  {\"partial\": \n", now()), Ok(None));
    assert_eq!(source.buffer(), "  {\"partial\": \n");
    assert_eq!(source.end_of_stream(now()), framed("{\"partial\":", "network:a"));
    assert_eq!(source.buffer(), "");
    assert_eq!(source.end_of_stream(now()), Ok(None));
    assert_eq!(source.state(), SourceState::Open);
}

#[test]
fn network_source_keeps_a_line_with_a_brace_that_frames_nothing() {
    let mut source = NetworkLogSource::new("a".to_string());
    source.opened();
    assert_eq!(source.accept_line("stray } brace\n", now()), Ok(None));
    assert_eq!(source.buffer(), "stray } brace\n");
    assert_eq!(source.accept_line("plain\n", now()), Ok(None));
    assert_eq!(source.accept_line("{\"a\":1}\n", now()), framed("{\"a\":1}", "network:a"));
    assert_eq!(source.buffer(), "");
}

#[test]
fn network_source_hands_on_an_empty_plain_line() {
    let mut source = NetworkLogSource::new("a".to_string());
    source.opened();
    assert_eq!(source.accept_line("\n", now()), framed("", "network:a"));
    assert_eq!(source.buffer(), "");
}

#[test]
fn tagged_source_behaves_as_its_kind() {
    let mut file = Source::File(FileLogSource::new("f".to_string()));
    let mut network = Source::Network(NetworkLogSource::new("n".to_string()));
    assert_eq!(file.state(), SourceState::Unopened);
    file.opened();
    network.opened();
    assert_eq!(file.accept_line("plain\n", now()), Ok(None));
    assert_eq!(network.accept_line("plain\n", now()), framed("plain", "network:n"));
    assert_eq!(file.pending(now()), Ok(None));
    assert_eq!(network.pending(now()), Ok(None));
    assert_eq!(file.end_of_stream(now()), Ok(None));
    assert_eq!(network.accept_line("{\n", now()), Ok(None));
    assert_eq!(network.end_of_stream(now()), framed("{", "network:n"));
    assert_eq!(file.close(), Ok(()));
    assert_eq!(network.close(), Ok(()));
    assert_eq!(network.state(), SourceState::Closed);
}

#[test]
fn source_labels() {
    assert_eq!(FileLogSource::new("./example.log".to_string()).path(), "./example.log");
    assert_eq!(NetworkLogSource::new("127.0.0.1:8888".to_string()).address(), "127.0.0.1:8888");
}

#[test]
fn object_that_arrives_line_by_line_comes_out_once() {
    let lines = ["{\n", "  \"message\": \"m\",\n", "\n", "  \"note\": \"a  }{  b\",\n", "  \"level\": \"warn\"\n", "}\n"];
    let mut source = NetworkLogSource::new("a".to_string());
    source.opened();
    let mut read = String::new();
    for chunk in &lines[..5] {
        assert_eq!(source.accept_line(chunk, now()), Ok(None));
        read.push_str(chunk);
        assert_eq!(source.buffer(), &read);
        assert_eq!(source.pending(now()), Ok(None));
    }
    assert_eq!(
        source.accept_line(lines[5], now()),
        framed("{\"message\": \"m\",\"note\": \"a  }{  b\",\"level\": \"warn\"}", "network:a")
    );
    assert_eq!(source.buffer(), "");
    assert_eq!(source.pending(now()), Ok(None));
    assert_eq!(source.end_of_stream(now()), Ok(None));
}
