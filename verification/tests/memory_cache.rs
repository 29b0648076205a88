use mini_langchain::cache::InMemoryCache;
use mini_langchain::memory::{ConversationBufferMemory, Role};
use mini_langchain::schema::Document;
use mini_langchain::strmap::StringMap;
use mini_langchain::text::{chars_of, decimal, string_of};

#[test]
fn string_map_insert_get_and_replace() {
    let mut map = StringMap::new();
    assert!(map.get(&"a".to_string()).is_none());
    map.insert("a".to_string(), "1".to_string());
    map.insert("b".to_string(), "2".to_string());
    map.insert("a".to_string(), "3".to_string());
    assert_eq!(map.get(&"a".to_string()).unwrap(), "3");
    assert_eq!(map.get(&"b".to_string()).unwrap(), "2");
    assert!(map.contains_key(&"b".to_string()));
    assert!(!map.contains_key(&"c".to_string()));
}

#[test]
fn string_map_clone_is_independent() {
    let mut map = StringMap::new();
    map.insert("k".to_string(), "v".to_string());
    let copy = map.clone();
    map.insert("k".to_string(), "w".to_string());
    assert_eq!(copy.get(&"k".to_string()).unwrap(), "v");
    assert_eq!(map.get(&"k".to_string()).unwrap(), "w");
}

#[test]
fn memory_starts_empty() {
    let memory = ConversationBufferMemory::new();
    assert_eq!(memory.len(), 0);
    assert_eq!(memory.transcript(), "");
}

#[test]
fn memory_transcript_lists_turns_oldest_first() {
    let mut memory = ConversationBufferMemory::new();
    memory.append(Role::User, "hi".to_string());
    memory.append(Role::Assistant, "hello".to_string());
    memory.append(Role::User, "bye".to_string());
    assert_eq!(memory.len(), 3);
    assert_eq!(memory.transcript(), "user: hi\nassistant: hello\nuser: bye\n");
    assert_eq!(memory.turn(1).role, Role::Assistant);
    assert_eq!(memory.turn(1).text, "hello");
}

#[test]
fn memory_clone_is_a_snapshot() {
    let mut memory = ConversationBufferMemory::new();
    memory.append(Role::User, "one".to_string());
    let snapshot = memory.clone();
    memory.append(Role::Assistant, "two".to_string());
    assert_eq!(snapshot.len(), 1);
    assert_eq!(snapshot.transcript(), "user: one\n");
    assert_eq!(memory.len(), 2);
}

#[test]
fn cache_get_and_set() {
    let mut cache = InMemoryCache::new();
    assert_eq!(cache.get(&"k".to_string()), None);
    cache.set("k".to_string(), "v".to_string());
    assert_eq!(cache.get(&"k".to_string()), Some("v".to_string()));
}

#[test]
fn cache_second_write_refreshes() {
    let mut cache = InMemoryCache::new();
    cache.set("k".to_string(), "v".to_string());
    cache.set("k".to_string(), "w".to_string());
    assert_eq!(cache.get(&"k".to_string()), Some("w".to_string()));
    assert_eq!(cache.get(&"other".to_string()), None);
}

#[test]
fn document_without_metadata_has_empty_metadata() {
    let doc = Document::new("text".to_string(), None);
    assert_eq!(doc.page_content(), "text");
    assert!(!doc.metadata().contains_key(&"source".to_string()));
}

#[test]
fn document_keeps_metadata() {
    let mut meta = StringMap::new();
    meta.insert("source".to_string(), "a.txt".to_string());
    let doc = Document::new("text".to_string(), Some(meta));
    assert_eq!(doc.metadata().get(&"source".to_string()).unwrap(), "a.txt");
    let copy = doc.clone();
    assert_eq!(copy.page_content(), "text");
    assert_eq!(copy.metadata().get(&"source".to_string()).unwrap(), "a.txt");
}

#[test]
fn decimal_numerals() {
    assert_eq!(decimal(0), "0");
    assert_eq!(decimal(7), "7");
    assert_eq!(decimal(10), "10");
    assert_eq!(decimal(1234567890), "1234567890");
}

#[test]
fn chars_and_strings_round_trip() {
    let chars = chars_of("héllo ✓");
    assert_eq!(chars.len(), 7);
    assert_eq!(string_of(&chars), "héllo ✓");
}
