use mempal::detect::Format;
use mempal::embed::{
    ConfiguredEmbedderFactory, EmbedConfig, EmbedError, EmbedderBackend, EmbedderFactory,
};
use mempal::ingest::{
    chunking_for, prepare_file, should_skip_dir, source_type_for, Chunking, IngestStats,
    CHUNK_OVERLAP, CHUNK_WINDOW,
};
use mempal::normalize::NormalizeError;
use mempal::types::SourceType;

#[test]
fn blank_file_prepares_to_nothing() {
    assert!(matches!(prepare_file(""), Ok(None)));
    assert!(matches!(prepare_file(" \n\t "), Ok(None)));
}

#[test]
fn plain_file_is_windowed() {
    let prepared = prepare_file("  We decided to use PostgreSQL.  ").unwrap().unwrap();
    assert_eq!(prepared.format, Format::PlainText);
    assert_eq!(prepared.normalized, "We decided to use PostgreSQL.");
    assert_eq!(prepared.source_type, SourceType::Project);
    assert_eq!(prepared.chunking, Chunking::Window { window: 800, overlap: 100 });
}

#[test]
fn conversation_file_is_chunked_by_exchange() {
    let content = "{\"type\":\"human\",\"message\":\"hello\"}\n{\"type\":\"assistant\",\"message\":\"hi\"}";
    let prepared = prepare_file(content).unwrap().unwrap();
    assert_eq!(prepared.format, Format::ClaudeJsonl);
    assert_eq!(prepared.normalized, "> hello\nhi");
    assert_eq!(prepared.source_type, SourceType::Conversation);
    assert_eq!(prepared.chunking, Chunking::Conversation);
}

#[test]
fn chatgpt_file_of_unknown_shape_fails() {
    assert!(matches!(
        prepare_file("{\"mapping\": 1}"),
        Err(NormalizeError::UnsupportedChatGptShape)
    ));
}

#[test]
fn format_decides_source_and_chunking() {
    assert_eq!(source_type_for(Format::ClaudeJsonl), SourceType::Conversation);
    assert_eq!(source_type_for(Format::ChatGptJson), SourceType::Conversation);
    assert_eq!(source_type_for(Format::PlainText), SourceType::Project);
    assert_eq!(chunking_for(Format::ChatGptJson), Chunking::Conversation);
    assert_eq!(
        chunking_for(Format::PlainText),
        Chunking::Window { window: CHUNK_WINDOW, overlap: CHUNK_OVERLAP }
    );
}

#[test]
fn skipped_directories() {
    assert!(should_skip_dir(Some(".git")));
    assert!(should_skip_dir(Some("target")));
    assert!(should_skip_dir(Some("node_modules")));
    assert!(!should_skip_dir(Some("src")));
    assert!(!should_skip_dir(Some(".github")));
    assert!(!should_skip_dir(None));
}

#[test]
fn stats_count_files_chunks_and_skips() {
    assert_eq!(IngestStats::default(), IngestStats { files: 0, chunks: 0, skipped: 0 });
    let mut file = IngestStats::for_file();
    file.record_chunk(false);
    file.record_chunk(true);
    file.record_chunk(false);
    assert_eq!(file, IngestStats { files: 1, chunks: 2, skipped: 1 });
    let mut total = IngestStats::default();
    total.absorb(&file);
    total.absorb(&IngestStats::for_file());
    assert_eq!(total, IngestStats { files: 2, chunks: 2, skipped: 1 });
}

#[test]
fn default_config_builds_onnx() {
    let factory = ConfiguredEmbedderFactory::new(EmbedConfig::default());
    assert!(matches!(factory.build(), Ok(EmbedderBackend::Onnx)));
}

#[test]
fn api_backend_uses_default_endpoint() {
    let config = EmbedConfig { backend: "api".to_string(), api_endpoint: None, api_model: None };
    match ConfiguredEmbedderFactory::new(config).build() {
        Ok(EmbedderBackend::Api { endpoint, model }) => {
            assert_eq!(endpoint, "http://localhost:11434/api/embeddings");
            assert_eq!(model, None);
        }
        other => panic!("expected an API backend, got {other:?}"),
    }
}

#[test]
fn api_backend_uses_configured_endpoint_and_model() {
    let config = EmbedConfig {
        backend: "api".to_string(),
        api_endpoint: Some("http://example:1/e".to_string()),
        api_model: Some("nomic-embed-text".to_string()),
    };
    match ConfiguredEmbedderFactory::new(config).build() {
        Ok(EmbedderBackend::Api { endpoint, model }) => {
            assert_eq!(endpoint, "http://example:1/e");
            assert_eq!(model.as_deref(), Some("nomic-embed-text"));
        }
        other => panic!("expected an API backend, got {other:?}"),
    }
}

#[test]
fn unknown_backend_is_unsupported() {
    let config = EmbedConfig { backend: "gpu".to_string(), api_endpoint: None, api_model: None };
    match ConfiguredEmbedderFactory::new(config).build() {
        Err(EmbedError::UnsupportedBackend(name)) => assert_eq!(name, "gpu"),
        other => panic!("expected an unsupported backend, got {other:?}"),
    }
}
