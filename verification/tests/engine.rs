use log_analyzer::engine::{
    Action, Engine, EngineConfig, Event, Phase, Worker, DEFAULT_BATCH_SIZE,
    DEFAULT_CHANNEL_CAPACITY, DEFAULT_WINDOW_SECONDS,
};
use log_analyzer::ingest::file_source::FileLogSource;
use log_analyzer::ingest::network_source::NetworkLogSource;
use log_analyzer::ingest::{Source, SourceState};
use log_analyzer::json::Metadata;
use log_analyzer::parser::json::JsonParser;
use log_analyzer::parser::plain_text::PlainTextParser;
use log_analyzer::parser::registry::{ParserRegistry, RegisteredParser};
use log_analyzer::parser::{Level, ParsedLog};
use log_analyzer::time::Timestamp;

fn now() -> Timestamp {
    Timestamp { secs: 1_700_000_000, nanos: 0 }
}

fn registry() -> ParserRegistry {
    let mut registry = ParserRegistry::new();
    registry.register(RegisteredParser::PlainText(PlainTextParser::new()));
    registry.register(RegisteredParser::Json(JsonParser::new()));
    registry
}

fn network_worker(batch_size: usize) -> Worker {
    Worker::new(Source::Network(NetworkLogSource::new("a".to_string())), batch_size)
}

fn file_worker(batch_size: usize) -> Worker {
    Worker::new(Source::File(FileLogSource::new("f".to_string())), batch_size)
}

fn line(text: &str) -> Event {
    Event::Line(text.to_string())
}

fn plain(message: &str) -> ParsedLog {
    ParsedLog {
        timestamp: Some(now()),
        level: None,
        message: message.to_string(),
        metadata: Metadata::new(),
    }
}

fn in_flight(worker: &Worker) -> usize {
    worker.batch_len() + worker.outbox_len()
}

fn emitted(action: Action) -> ParsedLog {
    match action {
        Action::Emit(log) => log,
        other => panic!("expected a record, got {:?}", other),
    }
}

#[test]
fn defaults() {
    assert_eq!(DEFAULT_BATCH_SIZE, 100);
    assert_eq!(DEFAULT_CHANNEL_CAPACITY, 100);
    assert_eq!(DEFAULT_WINDOW_SECONDS, 100);
    assert_eq!(
        EngineConfig::default(),
        EngineConfig {
            output_channel_capacity: 100,
            batch_size: 100,
            analytics_window_size_seconds: 100,
        }
    );
    assert_eq!(Engine::new(registry()).config(), EngineConfig::default());
}

#[test]
fn engine_is_set_up_with_its_configuration() {
    let config = EngineConfig {
        output_channel_capacity: 7,
        batch_size: 2,
        analytics_window_size_seconds: 30,
    };
    let mut engine = Engine::with_config(registry(), config);
    assert_eq!(engine.config(), config);
    assert_eq!(engine.analytics().window_size(), 30);
    engine.add_source(Source::Network(NetworkLogSource::new("a".to_string())));
    let mut workers = engine.run();
    let parser = registry();
    let worker = &mut workers[0];
    worker.step(Event::Start, &parser, now());
    worker.step(Event::Opened, &parser, now());
    assert_eq!(worker.step(line("one\n"), &parser, now()), Action::Read);
    let one = emitted(worker.step(line("two\n"), &parser, now()));
    assert!(engine.record(one));
    assert_eq!(engine.analytics().get_active_users_count(), 0);
    let (_, analytics) = engine.into_parts();
    assert!(analytics.window_start().secs > 1_700_000_000 - 30);
}

#[test]
fn worker_opens_reads_and_closes() {
    let parser = registry();
    let mut worker = network_worker(100);
    assert_eq!(worker.phase(), Phase::Idle);
    assert_eq!(worker.step(Event::Start, &parser, now()), Action::Open);
    assert_eq!(worker.phase(), Phase::Opening);
    assert_eq!(worker.step(Event::Opened, &parser, now()), Action::Read);
    assert_eq!(worker.phase(), Phase::Reading);
    assert_eq!(worker.source().state(), SourceState::Open);
    assert_eq!(worker.step(line("one\n"), &parser, now()), Action::Read);
    assert_eq!(in_flight(&worker), 1);
    assert_eq!(worker.step(Event::EndOfStream, &parser, now()), Action::Close);
    assert_eq!(worker.phase(), Phase::Closing);
    assert_eq!(in_flight(&worker), 0);
    assert_eq!(worker.step(Event::Closed, &parser, now()), Action::Stop);
    assert_eq!(worker.phase(), Phase::Done);
    assert_eq!(worker.source().state(), SourceState::Closed);
    assert_eq!(worker.step(Event::Closed, &parser, now()), Action::Stop);
    assert_eq!(worker.step(line("late\n"), &parser, now()), Action::Stop);
}

#[test]
fn worker_whose_source_does_not_open_stops_without_closing() {
    let parser = registry();
    let mut worker = file_worker(100);
    assert_eq!(worker.step(Event::Start, &parser, now()), Action::Open);
    assert_eq!(worker.step(Event::OpenFailed, &parser, now()), Action::Stop);
    assert_eq!(worker.phase(), Phase::Done);
    assert_eq!(worker.source().state(), SourceState::Unopened);
}

#[test]
fn worker_leaves_on_a_failed_read() {
    let parser = registry();
    let mut worker = network_worker(100);
    worker.step(Event::Start, &parser, now());
    worker.step(Event::Opened, &parser, now());
    assert_eq!(worker.step(line("one\n"), &parser, now()), Action::Read);
    assert_eq!(worker.step(Event::ReadFailed, &parser, now()), Action::Close);
    assert_eq!(in_flight(&worker), 0);
    assert_eq!(worker.step(Event::Closed, &parser, now()), Action::Stop);
}

#[test]
fn full_batch_is_parsed_and_sent_in_the_order_of_its_lines() {
    let parser = registry();
    let mut worker = network_worker(3);
    worker.step(Event::Start, &parser, now());
    worker.step(Event::Opened, &parser, now());
    assert_eq!(worker.step(line("first\n"), &parser, now()), Action::Read);
    assert_eq!(worker.step(line("{\"message\":\"second\",\"level\":\"warn\"}\n"), &parser, now()), Action::Read);
    assert_eq!(in_flight(&worker), 2);
    let first = emitted(worker.step(line("third\n"), &parser, now()));
    assert_eq!(first, plain("first"));
    assert_eq!(worker.phase(), Phase::Emitting);
    assert_eq!(in_flight(&worker), 2);
    let second = emitted(worker.step(Event::Sent, &parser, now()));
    assert_eq!(second.message, "second");
    assert_eq!(second.level, Some(Level::Warn));
    let third = emitted(worker.step(Event::Sent, &parser, now()));
    assert_eq!(third, plain("third"));
    assert_eq!(worker.step(Event::Sent, &parser, now()), Action::Read);
    assert_eq!(worker.phase(), Phase::Reading);
    assert_eq!(in_flight(&worker), 0);
}

#[test]
fn lines_that_do_not_parse_are_dropped() {
    let mut only_json = ParserRegistry::new();
    only_json.register(RegisteredParser::Json(JsonParser::new()));
    let mut worker = network_worker(3);
    worker.step(Event::Start, &only_json, now());
    worker.step(Event::Opened, &only_json, now());
    worker.step(line("no parser for this\n"), &only_json, now());
    worker.step(line("{\"message\":\"kept\"}\n"), &only_json, now());
    let kept = emitted(worker.step(line("nor for this\n"), &only_json, now()));
    assert_eq!(kept.message, "kept");
    assert_eq!(worker.step(Event::Sent, &only_json, now()), Action::Read);
}

#[test]
fn batch_without_a_record_goes_on_reading() {
    let none = ParserRegistry::new();
    let mut worker = network_worker(2);
    worker.step(Event::Start, &none, now());
    worker.step(Event::Opened, &none, now());
    assert_eq!(worker.step(line("a\n"), &none, now()), Action::Read);
    assert_eq!(worker.step(line("b\n"), &none, now()), Action::Read);
    assert_eq!(in_flight(&worker), 0);
}

#[test]
fn worker_leaves_when_the_consumer_is_gone() {
    let parser = registry();
    let mut worker = network_worker(2);
    worker.step(Event::Start, &parser, now());
    worker.step(Event::Opened, &parser, now());
    worker.step(line("one\n"), &parser, now());
    assert_eq!(emitted(worker.step(line("two\n"), &parser, now())), plain("one"));
    assert_eq!(worker.step(Event::SendFailed, &parser, now()), Action::Close);
    assert_eq!(in_flight(&worker), 0);
    assert_eq!(worker.source().state(), SourceState::Open);
    assert_eq!(worker.step(Event::Closed, &parser, now()), Action::Stop);
    assert_eq!(worker.source().state(), SourceState::Closed);
    assert_eq!(worker.step(Event::Closed, &parser, now()), Action::Stop);
    assert_eq!(worker.phase(), Phase::Done);
}

#[test]
fn objects_that_arrive_on_one_line_are_taken_one_by_one() {
    let parser = registry();
    let mut worker = network_worker(2);
    worker.step(Event::Start, &parser, now());
    worker.step(Event::Opened, &parser, now());
    let text = "{\"message\":\"1\"}{\"message\":\"2\"}{\"message\":\"3\"}{\"message\":\"4\"}{\"message\":\"5\"}\n";
    let mut messages = Vec::new();
    let mut action = worker.step(line(text), &parser, now());
    loop {
        match action {
            Action::Emit(log) => {
                messages.push(log.message);
                assert!(in_flight(&worker) <= 1);
                action = worker.step(Event::Sent, &parser, now());
            },
            Action::Read => break,
            other => panic!("unexpected {:?}", other),
        }
    }
    // Four objects fill two batches; the fifth waits for a sixth line.
    assert_eq!(messages, vec!["1", "2", "3", "4"]);
    assert_eq!(in_flight(&worker), 1);
    assert_eq!(emitted(worker.step(line("six\n"), &parser, now())).message, "5");
    assert_eq!(emitted(worker.step(Event::Sent, &parser, now())), plain("six"));
}

#[test]
fn network_worker_takes_the_flushed_buffer_as_a_last_line() {
    let parser = registry();
    let mut worker = network_worker(1);
    worker.step(Event::Start, &parser, now());
    worker.step(Event::Opened, &parser, now());
    assert_eq!(worker.step(line("{\"open\":\n"), &parser, now()), Action::Read);
    let flushed = emitted(worker.step(Event::EndOfStream, &parser, now()));
    assert_eq!(flushed, plain("{\"open\":"));
    assert_eq!(worker.step(Event::Sent, &parser, now()), Action::Read);
    assert_eq!(worker.step(Event::EndOfStream, &parser, now()), Action::Close);
}

#[test]
fn file_worker_frames_by_json_validity() {
    let parser = registry();
    let mut worker = file_worker(1);
    worker.step(Event::Start, &parser, now());
    worker.step(Event::Opened, &parser, now());
    assert_eq!(worker.step(line("{\n"), &parser, now()), Action::Read);
    assert_eq!(worker.step(line("\"message\": \"m\"\n"), &parser, now()), Action::Read);
    let log = emitted(worker.step(line("}\n"), &parser, now()));
    assert_eq!(log.message, "m");
    assert_eq!(worker.step(Event::Sent, &parser, now()), Action::Read);
    assert_eq!(worker.step(Event::EndOfStream, &parser, now()), Action::Close);
}

#[test]
fn events_out_of_turn_end_the_worker() {
    let parser = registry();
    let mut idle = file_worker(1);
    assert_eq!(idle.step(Event::Sent, &parser, now()), Action::Stop);
    assert_eq!(idle.phase(), Phase::Done);

    let mut opening = file_worker(1);
    opening.step(Event::Start, &parser, now());
    assert_eq!(opening.step(line("x\n"), &parser, now()), Action::Stop);

    let mut reading = file_worker(1);
    reading.step(Event::Start, &parser, now());
    reading.step(Event::Opened, &parser, now());
    assert_eq!(reading.step(Event::Sent, &parser, now()), Action::Close);
    assert_eq!(reading.step(Event::Start, &parser, now()), Action::Stop);
    assert_eq!(reading.source().state(), SourceState::Closed);
}

#[test]
fn hundred_lines_fill_the_default_batch() {
    let parser = registry();
    let mut worker = network_worker(DEFAULT_BATCH_SIZE);
    worker.step(Event::Start, &parser, now());
    worker.step(Event::Opened, &parser, now());
    for i in 0..99 {
        let text = format!("line {}\n", i);
        assert_eq!(worker.step(Event::Line(text), &parser, now()), Action::Read);
        assert_eq!(in_flight(&worker), i + 1);
    }
    let mut action = worker.step(line("line 99\n"), &parser, now());
    for i in 0..100 {
        assert_eq!(emitted(action).message, format!("line {}", i));
        assert!(in_flight(&worker) <= 100);
        action = worker.step(Event::Sent, &parser, now());
    }
    assert_eq!(action, Action::Read);
}

#[test]
fn engine_makes_one_worker_for_each_source() {
    let mut engine = Engine::new(registry());
    assert_eq!(engine.analytics().window_size(), 100);
    assert_eq!(engine.run().len(), 0);
    engine.add_source(Source::File(FileLogSource::new("./example.log".to_string())));
    engine.add_source(Source::Network(NetworkLogSource::new("127.0.0.1:8888".to_string())));
    let workers = engine.run();
    assert_eq!(workers.len(), 2);
    assert!(matches!(workers[0].source(), Source::File(_)));
    assert!(matches!(workers[1].source(), Source::Network(_)));
    assert_eq!(workers[0].phase(), Phase::Idle);
    assert_eq!(in_flight(&workers[1]), 0);
    assert_eq!(engine.run().len(), 0);
}
