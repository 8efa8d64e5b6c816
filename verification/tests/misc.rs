use core_engine::cancel::ShutdownSignal;
use core_engine::dlq::DlqAction;
use core_engine::dlq::DlqWorker;
use core_engine::dlq::ErrorPayload;
use core_engine::embedding::LengthChunker;
use core_engine::embedding::MockEmbedder;
use core_engine::metadata::Metadata;
use core_engine::node::rollback::RollbackContext;
use core_engine::node::Node;
use core_engine::pipeline::FaultPolicy;
use core_engine::text::join_lines;
use core_engine::text::last_segment;
use tokio_util::sync::CancellationToken;

#[test]
fn the_last_segment_of_a_path() {
    assert_eq!(last_segment("core_engine::node::retry::RetryNode"), "RetryNode");
    assert_eq!(last_segment("RetryNode"), "RetryNode");
    assert_eq!(last_segment("a::Chunk<alloc::string::String>"), "String>");
    assert_eq!(last_segment(""), "");
    assert_eq!(last_segment("a::"), "");
    for path in ["a:b", "::", ":::", "a:::b", "::::c", "a::\u{e9}::\u{1f600}x", "x::y:"].iter() {
        assert_eq!(last_segment(path), path.split("::").last().unwrap());
    }
}

#[test]
fn lines_are_joined() {
    let lines = |parts: &[&str]| parts.iter().map(|part| part.to_string()).collect::<Vec<String>>();
    assert_eq!(join_lines(&lines(&[])), "");
    assert_eq!(join_lines(&lines(&["a"])), "a");
    assert_eq!(join_lines(&lines(&["a", "", "c"])), "a\n\nc");
}

#[test]
fn payloads_are_written_on_one_line() {
    let payload = ErrorPayload::node_failure("Parser", "bad".to_string(), Some("\"x\"".to_string()));
    assert_eq!(payload.to_line(), "Parser: bad: \"x\"");
    assert_eq!(payload.to_record(), "Parser: bad: \"x\"\n");

    let payload = ErrorPayload::node_failure("Parser", "bad".to_string(), None);
    assert_eq!(payload.raw_data, "Flush");
    let payload = ErrorPayload::source_failure("File", "gone".to_string());
    assert_eq!(payload.to_line(), "File: gone: ");
    let payload = ErrorPayload::validation_failure("short".to_string(), "1".to_string());
    assert_eq!(payload.to_line(), "ValidationNode: short: 1");
    let payload = ErrorPayload::task_panicked("Parser");
    assert_eq!(payload.to_line(), "Parser: Task panicked: unknown \u{2014} lost to panic");
}

#[test]
fn the_worker_counts_what_it_receives() {
    let payload = || Some(ErrorPayload::task_panicked("Parser"));
    let mut worker = DlqWorker::new(FaultPolicy::Halt);
    assert!(matches!(worker.on_received(payload()), DlqAction::Write(_)));
    assert!(matches!(worker.on_written(true), DlqAction::Receive));
    assert!(matches!(worker.on_received(payload()), DlqAction::Write(_)));
    assert!(matches!(worker.on_written(false), DlqAction::Finish(2)));

    let mut worker = DlqWorker::new(FaultPolicy::Continue);
    assert!(matches!(worker.on_received(payload()), DlqAction::Write(_)));
    assert!(matches!(worker.on_written(false), DlqAction::Receive));
    assert!(matches!(worker.on_received(None), DlqAction::Finish(1)));
}

#[test]
fn metadata_keeps_the_latest_value() {
    let mut metadata = Metadata::new();
    assert_eq!(metadata.get("user"), None);
    metadata.insert("user".to_string(), "a".to_string());
    metadata.insert("role".to_string(), "b".to_string());
    metadata.insert("user".to_string(), "c".to_string());
    assert_eq!(metadata.get("user"), Some("c"));
    assert_eq!(metadata.get("role"), Some("b"));
    assert_eq!(metadata.get(""), None);

    let mut entries = metadata.entries();
    entries.sort();
    let pair = |key: &str, value: &str| (key.to_string(), value.to_string());
    assert_eq!(entries, vec![pair("role", "b"), pair("user", "c")]);
    assert!(Metadata::new().entries().is_empty());

    let mut copy = Metadata::new();
    for (key, value) in metadata.entries() {
        copy.insert(key, value);
    }
    assert_eq!(copy.get("user"), Some("c"));
    assert_eq!(copy.get("role"), Some("b"));
}

#[test]
fn rollbacks_come_back_latest_first() {
    let mut context = RollbackContext::new("item");
    context.push(1);
    context.push(2);
    context.push(3);
    let mut executed = Vec::new();
    while let Some(rollback) = context.next_rollback() {
        executed.push(rollback);
    }
    assert_eq!(executed, vec![3, 2, 1]);
    assert_eq!(context.next_rollback(), None);
    assert_eq!(context.inner, "item");
}

#[test]
fn signals_give_their_token() {
    assert!(matches!(ShutdownSignal::default(), ShutdownSignal::CtrlC));
    assert!(ShutdownSignal::Never.into_token().is_none());
    let own = ShutdownSignal::default().into_token().unwrap();
    assert!(!own.is_cancelled());

    let token = CancellationToken::new();
    let watched = ShutdownSignal::Custom(token.clone()).into_token().unwrap();
    assert!(!watched.is_cancelled());
    token.cancel();
    assert!(watched.is_cancelled());
}

#[test]
fn text_is_chunked_by_bytes() {
    let mut chunker = LengthChunker { chunks: Vec::new(), counter: 0, chunk_size: 5 };
    assert_eq!(chunker.execute(&"ab".to_string()), Ok(Vec::new()));
    assert_eq!(chunker.counter, 2);
    assert_eq!(chunker.execute(&"\u{e9}".to_string()), Ok(Vec::new()));
    assert_eq!(chunker.counter, 4);
    assert_eq!(chunker.flush(), Ok(vec!["ab\n\u{e9}".to_string()]));
    assert_eq!(chunker.execute(&"c".to_string()), Ok(vec!["ab\n\u{e9}\nc".to_string()]));
    assert_eq!((chunker.counter, chunker.chunks.len()), (0, 0));
    assert_eq!(chunker.execute(&"longer".to_string()), Ok(vec!["longer".to_string()]));
    assert_eq!(chunker.flush(), Ok(vec!["".to_string()]));
}

#[test]
fn mock_embeddings_are_remembered() {
    let mut embedder = MockEmbedder { embeddings: Vec::new() };
    assert_eq!(embedder.execute(&"x".to_string()), Ok(vec!["EMBEDDING_FOR: x".to_string()]));
    assert_eq!(embedder.execute(&"".to_string()), Ok(vec!["EMBEDDING_FOR: ".to_string()]));
    assert_eq!(embedder.embeddings, vec!["EMBEDDING_FOR: x", "EMBEDDING_FOR: "]);
    assert_eq!(embedder.flush(), Ok(Vec::new()));
}
