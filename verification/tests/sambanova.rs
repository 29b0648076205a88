use mini_langchain::llm::ProviderError;
use mini_langchain::sambanova::{interpret, interpret_found, resolve_key, transport_failure, SambaNovaProvider};

fn provider() -> SambaNovaProvider {
    SambaNovaProvider::new("SECRET-REDACTED".to_string(), "Meta-Llama-3.1-8B-Instruct".to_string())
}

#[test]
fn request_body_is_the_chat_completion_request() {
    let body = provider().request_body("Say \"hi\"\n");
    assert_eq!(
        body,
        "{\"messages\":[{\"content\":\"You are a helpful assistant.\",\"role\":\"system\"},{\"content\":\"Say \\\"hi\\\"\\n\",\"role\":\"user\"}],\"model\":\"Meta-Llama-3.1-8B-Instruct\",\"stream\":false}"
    );
    let value: serde_json::Value = serde_json::from_str(&body).unwrap();
    assert_eq!(value["stream"], serde_json::Value::Bool(false));
    assert_eq!(value["messages"][1]["content"].as_str(), Some("Say \"hi\"\n"));
    assert_eq!(value["messages"][0]["role"].as_str(), Some("system"));
}

#[test]
fn request_body_uses_the_given_system_prompt() {
    let body = provider().with_system_prompt("Be brief.".to_string()).request_body("q");
    let value: serde_json::Value = serde_json::from_str(&body).unwrap();
    assert_eq!(value["messages"][0]["content"].as_str(), Some("Be brief."));
    assert_eq!(value["model"].as_str(), Some("Meta-Llama-3.1-8B-Instruct"));
}

#[test]
fn authorization_and_endpoint() {
    let p = provider();
    assert_eq!(p.authorization(), "Bearer SECRET-REDACTED");
    assert_eq!(p.endpoint(), "https://api.sambanova.ai/v1/chat/completions");
    assert_eq!(p.model(), "Meta-Llama-3.1-8B-Instruct");
}

#[test]
fn interpret_extracts_the_first_choice() {
    let body = "{\"choices\":[{\"message\":{\"role\":\"assistant\",\"content\":\"Hello!\"}},{\"message\":{\"content\":\"second\"}}]}";
    assert_eq!(interpret(true, body).unwrap(), "Hello!");
}

#[test]
fn interpret_reports_backend_status_with_the_body() {
    match interpret(false, "rate limited") {
        Err(ProviderError::BackendStatus(m)) => assert_eq!(m, "SambaNova API error: rate limited"),
        other => panic!("unexpected outcome: {:?}", other),
    }
}

#[test]
fn interpret_reports_a_body_that_is_not_json() {
    match interpret(true, "<html>") {
        Err(ProviderError::MalformedResponse(m)) => assert_eq!(m, "Failed to parse SambaNova response"),
        other => panic!("unexpected outcome: {:?}", other),
    }
}

#[test]
fn interpret_reports_a_missing_completion() {
    for body in ["{}", "{\"choices\":[]}", "{\"choices\":[{\"message\":{\"content\":5}}]}", "[1,2]"] {
        match interpret(true, body) {
            Err(ProviderError::MalformedResponse(m)) => {
                assert_eq!(m, "Invalid response structure from SambaNova")
            }
            other => panic!("unexpected outcome: {:?}", other),
        }
    }
}

#[test]
fn interpret_found_covers_each_case() {
    assert_eq!(interpret_found(true, "b", Ok(Some("c".to_string()))).unwrap(), "c");
    assert!(matches!(interpret_found(true, "b", Ok(None)), Err(ProviderError::MalformedResponse(_))));
    assert!(matches!(interpret_found(true, "b", Err(())), Err(ProviderError::MalformedResponse(_))));
    assert!(matches!(
        interpret_found(false, "b", Ok(Some("c".to_string()))),
        Err(ProviderError::BackendStatus(_))
    ));
}

#[test]
fn transport_failure_names_the_cause() {
    match transport_failure("dns error") {
        ProviderError::Transport(m) => assert_eq!(m, "Failed to send request to SambaNova: dns error"),
        other => panic!("unexpected error: {:?}", other),
    }
}

#[test]
fn resolve_key_prefers_the_given_key() {
    assert_eq!(resolve_key(Some("a".to_string()), Some("b".to_string())), Some("a".to_string()));
    assert_eq!(resolve_key(None, Some("b".to_string())), Some("b".to_string()));
    assert_eq!(resolve_key(None, None), None);
}

#[test]
fn interpret_takes_choices_for_a_list_only() {
    let body = "{\"choices\":{\"0\":{\"message\":{\"content\":\"x\"}}}}";
    match interpret(true, body) {
        Err(ProviderError::MalformedResponse(m)) => {
            assert_eq!(m, "Invalid response structure from SambaNova")
        }
        other => panic!("unexpected outcome: {:?}", other),
    }
    let nested = "{\"choices\":[{\"message\":{\"content\":\"a/b~c\"}}]}";
    assert_eq!(interpret(true, nested).unwrap(), "a/b~c");
    let null_content = "{\"choices\":[{\"message\":{\"content\":null}}]}";
    assert!(matches!(interpret(true, null_content), Err(ProviderError::MalformedResponse(_))));
}
