use mini_langchain::cache::InMemoryCache;
use mini_langchain::chain::{Chain, ChainError, ChainState, Lookup};
use mini_langchain::llm::{ProviderError, LLM};
use mini_langchain::memory::{ConversationBufferMemory, Role};
use mini_langchain::prompt::{PromptTemplate, TemplateError};
use mini_langchain::strmap::StringMap;

/// Answers "echo: <prompt>" and counts its calls; fails while `failing`.
struct Echo {
    calls: usize,
    failing: bool,
}

impl Echo {
    fn new() -> Echo {
        Echo { calls: 0, failing: false }
    }
}

impl LLM for Echo {
    fn generate(&mut self, prompt: &str) -> Result<String, ProviderError> {
        self.calls += 1;
        if self.failing {
            Err(ProviderError::Transport("down".to_string()))
        } else {
            Ok(format!("echo {}: {}", self.calls, prompt))
        }
    }
}

fn inputs(pairs: &[(&str, &str)]) -> StringMap {
    let mut map = StringMap::new();
    for (k, v) in pairs {
        map.insert(k.to_string(), v.to_string());
    }
    map
}

fn topic_template() -> PromptTemplate {
    PromptTemplate::new("Tell me about {topic}.", vec!["topic".to_string()])
}

#[test]
fn call_renders_and_asks_the_provider() {
    let mut chain = Chain::new(topic_template(), Echo::new(), "m".to_string(), None);
    let out = chain.call(&inputs(&[("topic", "rust")])).unwrap();
    assert_eq!(out, "echo 1: Tell me about rust.");
    assert_eq!(chain.provider().calls, 1);
    assert!(chain.state().memory().is_none());
    assert!(chain.state().cache().is_none());
    assert_eq!(chain.state().model(), "m");
}

#[test]
fn call_propagates_missing_variable_without_asking() {
    let mut chain = Chain::new(topic_template(), Echo::new(), "m".to_string(), Some(ConversationBufferMemory::new()))
        .with_cache(InMemoryCache::new());
    match chain.call(&StringMap::new()) {
        Err(ChainError::Template(TemplateError::MissingVariable(name))) => assert_eq!(name, "topic"),
        other => panic!("unexpected outcome: {:?}", other),
    }
    assert_eq!(chain.provider().calls, 0);
    assert_eq!(chain.state().memory().unwrap().len(), 0);
}

#[test]
fn provider_failure_changes_neither_memory_nor_cache() {
    let mut provider = Echo::new();
    provider.failing = true;
    let mut chain = Chain::new(topic_template(), provider, "m".to_string(), Some(ConversationBufferMemory::new()))
        .with_cache(InMemoryCache::new());
    match chain.call(&inputs(&[("topic", "rust")])) {
        Err(ChainError::Provider(ProviderError::Transport(message))) => assert_eq!(message, "down"),
        other => panic!("unexpected outcome: {:?}", other),
    }
    assert_eq!(chain.state().memory().unwrap().len(), 0);
    assert_eq!(chain.state().cache().unwrap().get(&"m\nTell me about rust.".to_string()), None);
}

#[test]
fn second_call_with_cache_does_not_ask_again() {
    let mut chain = Chain::new(topic_template(), Echo::new(), "m".to_string(), None).with_cache(InMemoryCache::new());
    let values = inputs(&[("topic", "rust")]);
    let first = chain.call(&values).unwrap();
    let second = chain.call(&values).unwrap();
    assert_eq!(first, second);
    assert_eq!(chain.provider().calls, 1);
    let other = chain.call(&inputs(&[("topic", "verus")])).unwrap();
    assert_eq!(other, "echo 2: Tell me about verus.");
}

#[test]
fn cache_key_is_model_line_feed_prompt() {
    let mut chain = Chain::new(topic_template(), Echo::new(), "model-x".to_string(), None).with_cache(InMemoryCache::new());
    let out = chain.call(&inputs(&[("topic", "rust")])).unwrap();
    let key = "model-x\nTell me about rust.".to_string();
    assert_eq!(chain.state().cache().unwrap().get(&key), Some(out));
}

#[test]
fn model_name_with_line_feed_admits_no_cache_key() {
    let mut chain = Chain::new(topic_template(), Echo::new(), "bad\nname".to_string(), None).with_cache(InMemoryCache::new());
    match chain.call(&inputs(&[("topic", "rust")])) {
        Err(ChainError::CacheKeyDerivation) => {}
        other => panic!("unexpected outcome: {:?}", other),
    }
    assert_eq!(chain.provider().calls, 0);
}

#[test]
fn model_name_with_line_feed_is_fine_without_cache() {
    let mut chain = Chain::new(topic_template(), Echo::new(), "bad\nname".to_string(), None);
    assert!(chain.call(&inputs(&[("topic", "rust")])).is_ok());
}

#[test]
fn memory_grows_by_one_pair_per_successful_call() {
    let mut chain = Chain::new(topic_template(), Echo::new(), "m".to_string(), Some(ConversationBufferMemory::new()));
    let topics = ["a", "b", "c"];
    let mut outputs = Vec::new();
    for t in topics {
        outputs.push(chain.call(&inputs(&[("topic", t)])).unwrap());
    }
    let memory = chain.state().memory().unwrap();
    assert_eq!(memory.len(), 6);
    for (i, t) in topics.iter().enumerate() {
        assert_eq!(memory.turn(2 * i).role, Role::User);
        assert_eq!(memory.turn(2 * i).text, format!("Tell me about {}.", t));
        assert_eq!(memory.turn(2 * i + 1).role, Role::Assistant);
        assert_eq!(memory.turn(2 * i + 1).text, outputs[i]);
    }
}

#[test]
fn user_turn_is_the_input_named_input() {
    let template = PromptTemplate::new("Q: {input}", vec!["input".to_string()]);
    let mut chain = Chain::new(template, Echo::new(), "m".to_string(), Some(ConversationBufferMemory::new()));
    chain.call(&inputs(&[("input", "why?")])).unwrap();
    let memory = chain.state().memory().unwrap();
    assert_eq!(memory.turn(0).text, "why?");
    assert_eq!(memory.turn(1).text, "echo 1: Q: why?");
}

#[test]
fn history_is_offered_to_the_template() {
    let template = PromptTemplate::new("{history}Q: {input}", vec!["history".to_string(), "input".to_string()]);
    let mut chain = Chain::new(template, Echo::new(), "m".to_string(), Some(ConversationBufferMemory::new()));
    let first = chain.call(&inputs(&[("input", "one")])).unwrap();
    assert_eq!(first, "echo 1: Q: one");
    let second = chain.call(&inputs(&[("input", "two")])).unwrap();
    assert_eq!(second, "echo 2: user: one\nassistant: echo 1: Q: one\nQ: two");
}

#[test]
fn history_variable_without_memory_is_an_ordinary_variable() {
    let template = PromptTemplate::new("{history}", vec!["history".to_string()]);
    let mut chain = Chain::new(template, Echo::new(), "m".to_string(), None);
    match chain.call(&StringMap::new()) {
        Err(ChainError::Template(TemplateError::MissingVariable(name))) => assert_eq!(name, "history"),
        other => panic!("unexpected outcome: {:?}", other),
    }
}

#[test]
fn cache_hit_still_appends_to_memory() {
    let mut chain = Chain::new(topic_template(), Echo::new(), "m".to_string(), Some(ConversationBufferMemory::new()))
        .with_cache(InMemoryCache::new());
    let values = inputs(&[("topic", "rust")]);
    let first = chain.call(&values).unwrap();
    let second = chain.call(&values).unwrap();
    assert_eq!(first, second);
    assert_eq!(chain.provider().calls, 1);
    let memory = chain.state().memory().unwrap();
    assert_eq!(memory.len(), 4);
    assert_eq!(memory.turn(3).text, first);
}

#[test]
fn begin_and_settle_make_a_call_in_two_phases() {
    let mut state = ChainState::new(topic_template(), "m".to_string(), Some(ConversationBufferMemory::new()))
        .with_cache(InMemoryCache::new());
    let values = inputs(&[("topic", "rust")]);
    let prompt = match state.begin(&values).unwrap() {
        Lookup::Miss { prompt } => prompt,
        other => panic!("unexpected lookup: {:?}", other),
    };
    assert_eq!(prompt, "Tell me about rust.");
    let out = state.settle(&values, &prompt, Ok("done".to_string())).unwrap();
    assert_eq!(out, "done");
    match state.begin(&values).unwrap() {
        Lookup::Hit { prompt, value } => {
            assert_eq!(prompt, "Tell me about rust.");
            assert_eq!(value, "done");
        }
        other => panic!("unexpected lookup: {:?}", other),
    }
    assert_eq!(state.memory().unwrap().len(), 2);
    assert_eq!(state.model(), "m");
}

#[test]
fn settle_hands_a_provider_failure_on() {
    let mut state = ChainState::new(topic_template(), "m".to_string(), None)
        .with_memory(ConversationBufferMemory::new());
    let values = inputs(&[("topic", "rust")]);
    let reply = Err(ProviderError::BackendStatus("503".to_string()));
    match state.settle(&values, &"p".to_string(), reply) {
        Err(ChainError::Provider(ProviderError::BackendStatus(m))) => assert_eq!(m, "503"),
        other => panic!("unexpected outcome: {:?}", other),
    }
    assert_eq!(state.memory().unwrap().len(), 0);
}

#[test]
fn record_stores_and_appends() {
    let mut state = ChainState::new(topic_template(), "m".to_string(), Some(ConversationBufferMemory::new()))
        .with_cache(InMemoryCache::new());
    state.record(&inputs(&[("input", "raw")]), &"p".to_string(), &"c".to_string());
    assert_eq!(state.cache().unwrap().get(&"m\np".to_string()), Some("c".to_string()));
    assert_eq!(state.memory().unwrap().turn(0).text, "raw");
    assert_eq!(state.memory().unwrap().turn(1).text, "c");
}

#[test]
fn into_parts_gives_state_and_provider() {
    let mut chain = Chain::new(topic_template(), Echo::new(), "m".to_string(), None);
    chain.call(&inputs(&[("topic", "rust")])).unwrap();
    let (state, provider) = chain.into_parts();
    assert_eq!(provider.calls, 1);
    assert!(state.memory().is_none());
}

#[test]
fn with_memory_replaces_the_memory() {
    let mut seeded = ConversationBufferMemory::new();
    seeded.append(Role::User, "earlier".to_string());
    let chain = Chain::new(topic_template(), Echo::new(), "m".to_string(), None).with_memory(seeded);
    assert_eq!(chain.state().memory().unwrap().len(), 1);
}

#[test]
fn provider_error_message() {
    assert_eq!(ProviderError::Transport("a".to_string()).message(), "a");
    assert_eq!(ProviderError::BackendStatus("b".to_string()).message(), "b");
    assert_eq!(ProviderError::MalformedResponse("c".to_string()).message(), "c");
}
