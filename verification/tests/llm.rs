use novatype::llm::{completion_text, LlmError, OllamaBackend};
use std::time::Duration;

#[test]
fn builds_endpoint_from_base_url() {
    let backend = OllamaBackend::new(
        "http://127.0.0.1:11434/",
        "qwen2:0.5b",
        Duration::from_secs(1),
    );

    assert_eq!(backend.endpoint(), "http://127.0.0.1:11434/api/generate");
    assert_eq!(backend.name(), "ollama");
}

#[test]
fn trims_every_trailing_slash() {
    let backend = OllamaBackend::new("http://host:1//", "m", Duration::from_millis(5));
    assert_eq!(backend.endpoint(), "http://host:1/api/generate");
    assert_eq!(backend.model(), "m");
    assert_eq!(backend.timeout(), Duration::from_millis(5));
}

#[test]
fn local_backend_targets_default_port() {
    let backend = OllamaBackend::local("qwen2:0.5b");
    assert_eq!(backend.endpoint(), "http://127.0.0.1:11434/api/generate");
    assert_eq!(backend.model(), "qwen2:0.5b");
    assert_eq!(backend.timeout(), Duration::from_secs(10));
}

#[test]
fn completion_text_trims_reply() {
    assert_eq!(completion_text("  你好 \n"), "你好");
    assert_eq!(completion_text("\t\n"), "");
}

#[test]
fn llm_error_displays_message() {
    let error = LlmError::new("timeout".to_string());
    assert_eq!(error.to_string(), "llm error: timeout");
}
