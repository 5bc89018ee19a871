use mira::level::{add_clamped, clamp_level};
use mira::memory::calculate_contextual_importance;
use mira::vector_store::MockVectorStore;
use mira::{EmotionalState, MemoryConfig, MemoryEntry, MemoryError, MemorySystem, MemoryType};

/// A stand-in for the embedding provider: every text maps to one vector.
fn embed(_text: &str) -> Result<Vec<i16>, String> {
    Ok(vec![1000, 2000, -500, 300])
}

fn system(limit: usize) -> MemorySystem<MockVectorStore> {
    let config = MemoryConfig { short_term_limit: limit, ..MemoryConfig::default() };
    MemorySystem::new("test_user".to_string(), MockVectorStore::new(), Some(config)).unwrap()
}

#[test]
fn test_memory_system_creation() {
    let vector_store = MockVectorStore::new();
    let memory_system = MemorySystem::new("test_user".to_string(), vector_store, None).unwrap();

    assert_eq!(memory_system.user_id(), "test_user");
}

#[test]
fn test_add_and_retrieve_memory() {
    let vector_store = MockVectorStore::new();
    let mut memory_system = MemorySystem::new("test_user".to_string(), vector_store, None).unwrap();

    let memory_id = memory_system
        .add_memory(
            MemoryType::LongTerm,
            "用户喜欢猫咪".to_string(),
            vec!["猫咪".to_string(), "喜欢".to_string()],
            800,
            None,
            embed("用户喜欢猫咪"),
        )
        .unwrap();

    let memories = memory_system
        .retrieve_memories(embed("猫咪"), Some(vec![MemoryType::LongTerm]), Some(5))
        .unwrap();

    assert!(!memories.is_empty());
    assert_eq!(memories[0].id, memory_id);
}

#[test]
fn clamping_keeps_levels_in_range() {
    assert_eq!(clamp_level(-5), 0);
    assert_eq!(clamp_level(1500), 1000);
    assert_eq!(clamp_level(420), 420);
    let mut level: u32 = clamp_level(700);
    for delta in [400i64, -3000, 250, i64::MAX, i64::MIN, 10] {
        level = add_clamped(level, delta);
        assert!(level <= 1000);
    }
    assert_eq!(level, 10);
}

#[test]
fn update_importance_clamps() {
    let mut entry = MemoryEntry::new(MemoryType::LongTerm, "a".to_string(), vec![], 2000);
    assert_eq!(entry.importance, 1000);
    entry.update_importance(-300);
    assert_eq!(entry.importance, 700);
    entry.update_importance(-5000);
    assert_eq!(entry.importance, 0);
}

#[test]
fn new_entries_get_distinct_ids_and_a_timestamp() {
    let a = MemoryEntry::new(MemoryType::LongTerm, "a".to_string(), vec![], 500);
    let b = MemoryEntry::new(MemoryType::LongTerm, "a".to_string(), vec![], 500);
    assert_ne!(a.id, b.id);
    assert!(a.created_at > 1_600_000_000_000);
    assert_eq!(a.created_at, a.last_accessed);
    let mut c = a.clone();
    c.mark_accessed();
    assert_eq!(c.access_count, 1);
    assert!(c.last_accessed >= a.last_accessed);
}

#[test]
fn contextual_importance_scores() {
    assert_eq!(calculate_contextual_importance(500, &None, MemoryType::LongTerm), 500);
    assert_eq!(calculate_contextual_importance(500, &None, MemoryType::ShortTerm), 400);
    assert_eq!(calculate_contextual_importance(500, &None, MemoryType::Emotional), 700);
    assert_eq!(calculate_contextual_importance(900, &None, MemoryType::Relationship), 1000);
    assert_eq!(calculate_contextual_importance(50, &None, MemoryType::ShortTerm), 0);
    let context = EmotionalState::default_at(0);
    // mean affect (500 + 300 + 300 + 200) / 4 = 325, times 0.3 = 97
    assert_eq!(calculate_contextual_importance(500, &Some(context.clone()), MemoryType::LongTerm), 597);
    assert_eq!(calculate_contextual_importance(500, &Some(context), MemoryType::Emotional), 797);
}

#[test]
fn three_short_term_entries_with_limit_two() {
    let mut store = system(2);
    store.add_memory(MemoryType::ShortTerm, "high".to_string(), vec![], 900, None, embed("high")).unwrap();
    let low = store.add_memory(MemoryType::ShortTerm, "low".to_string(), vec![], 300, None, embed("low")).unwrap();
    store.add_memory(MemoryType::ShortTerm, "mid".to_string(), vec![], 600, None, embed("mid")).unwrap();

    assert!(matches!(store.get_memory(low), Err(MemoryError::NotFound { .. })));
    let found = store.retrieve_memories(embed("q"), None, None).unwrap();
    let contents: Vec<&str> = found.iter().map(|e| e.content.as_str()).collect();
    assert_eq!(contents, vec!["high", "mid"]);
    // the short-term bias lowers each importance by 0.1
    assert_eq!(found[0].importance, 800);
    assert_eq!(found[1].importance, 500);
}

#[test]
fn sweep_removes_exactly_the_excess() {
    let mut store = system(2);
    let mut ids = Vec::new();
    for (text, importance) in [("a", 700i64), ("b", 200), ("c", 900), ("d", 400)] {
        ids.push(store.add_memory(MemoryType::ShortTerm, text.to_string(), vec![], importance, None, Err("offline".to_string())).unwrap());
    }
    let long = store.add_memory(MemoryType::LongTerm, "keep".to_string(), vec![], 0, None, Err("offline".to_string())).unwrap();
    assert!(store.get_memory(ids[0]).is_ok());
    assert!(store.get_memory(ids[1]).is_err());
    assert!(store.get_memory(ids[2]).is_ok());
    assert!(store.get_memory(ids[3]).is_err());
    assert!(store.get_memory(long).is_ok());
    let stats = store.get_memory_stats();
    assert_eq!(stats, vec![("ShortTerm".to_string(), 2), ("LongTerm".to_string(), 1), ("total".to_string(), 3)]);
}

#[test]
fn retrieval_orders_by_importance_whatever_the_insertion_order() {
    let mut store = system(100);
    for (text, importance) in [("b", 500i64), ("d", 100), ("a", 900), ("c", 300)] {
        store.add_memory(MemoryType::Preference, text.to_string(), vec![], importance, None, embed(text)).unwrap();
    }
    let found = store.retrieve_memories(embed("q"), None, Some(10)).unwrap();
    let importances: Vec<u32> = found.iter().map(|e| e.importance).collect();
    assert_eq!(importances, vec![900, 500, 300, 100]);
    assert!(found.iter().all(|e| e.access_count == 1));
    let limited = store.retrieve_memories(embed("q"), None, Some(2)).unwrap();
    assert_eq!(limited.len(), 2);
}

#[test]
fn retrieval_applies_the_category_filter() {
    let mut store = system(100);
    store.add_memory(MemoryType::Emotional, "e".to_string(), vec![], 100, None, embed("e")).unwrap();
    store.add_memory(MemoryType::LongTerm, "l".to_string(), vec![], 900, None, embed("l")).unwrap();
    let found = store.retrieve_memories(embed("q"), Some(vec![MemoryType::Emotional]), None).unwrap();
    assert_eq!(found.len(), 1);
    assert_eq!(found[0].content, "e");
    assert_eq!(found[0].importance, 300);
}

#[test]
fn entries_without_embedding_are_kept_but_not_found() {
    let mut store = system(100);
    let id = store.add_memory(MemoryType::LongTerm, "x".to_string(), vec![], 500, None, Err("provider down".to_string())).unwrap();
    assert!(store.get_memory(id).unwrap().embedding.is_none());
    let found = store.retrieve_memories(embed("x"), None, None).unwrap();
    assert!(found.is_empty());
}

#[test]
fn retrieval_fails_without_a_query_embedding() {
    let mut store = system(100);
    match store.retrieve_memories(Err("provider down".to_string()), None, None) {
        Err(MemoryError::DatabaseError(message)) => assert_eq!(message, "provider down"),
        other => panic!("unexpected result: {:?}", other),
    }
}

#[test]
fn index_failure_is_reported_and_nothing_is_cached() {
    let mut store = system(100);
    store.add_memory(MemoryType::LongTerm, "x".to_string(), vec![], 500, None, Ok(vec![1, 2, 3])).unwrap();
    let result = store.add_memory(MemoryType::LongTerm, "y".to_string(), vec![], 500, None, Ok(vec![1, 2]));
    assert!(matches!(result, Err(MemoryError::VectorStoreError { .. })));
    let stats = store.get_memory_stats();
    assert_eq!(stats, vec![("LongTerm".to_string(), 1), ("total".to_string(), 1)]);
}

#[test]
fn emotional_state_slot_is_replaced() {
    let mut store = system(100);
    assert_eq!(store.get_emotional_state().happiness, 500);
    let mut state = EmotionalState::default_at(7);
    state.happiness = 900;
    store.update_emotional_state(state);
    let read = store.get_emotional_state();
    assert_eq!(read.happiness, 900);
    assert_eq!(read.timestamp, 7);
}

#[test]
fn default_config_values() {
    let config = MemoryConfig::default();
    assert_eq!(config.short_term_limit, 100);
    assert_eq!(config.long_term_threshold, 700);
    assert_eq!(config.similarity_threshold, 800);
    assert_eq!(config.cleanup_interval, 3600);
    let store = MemorySystem::new("u".to_string(), MockVectorStore::new(), None).unwrap();
    assert_eq!(store.config().short_term_limit, 100);
}

#[test]
fn add_with_a_given_id_and_time() {
    let mut store = system(100);
    let id = store
        .add_memory_with_id(42, 1_000, MemoryType::Preference, "p".to_string(), vec![], 600, None, Err("down".to_string()))
        .unwrap();
    assert_eq!(id, 42);
    let entry = store.get_memory(42).unwrap();
    assert_eq!(entry.created_at, 1_000);
    assert_eq!(entry.last_accessed, 1_000);
    assert_eq!(entry.importance, 600);
    assert!(entry.embedding.is_none());
    let again = store.add_memory_with_id(42, 2_000, MemoryType::LongTerm, "q".to_string(), vec![], 100, None, embed("q"));
    match again {
        Err(MemoryError::DatabaseError(message)) => assert_eq!(message, "identifier already in use"),
        other => panic!("unexpected result: {:?}", other),
    }
    assert_eq!(store.get_memory(42).unwrap().content, "p");
    let stored = store
        .add_memory_with_id(7, 3_000, MemoryType::LongTerm, "q".to_string(), vec![], 100, None, embed("q"))
        .unwrap();
    assert_eq!(stored, 7);
    let found = store.retrieve_memories(embed("q"), None, None).unwrap();
    assert_eq!(found.len(), 1);
    assert_eq!(found[0].id, 7);
}

#[test]
fn index_failure_under_a_given_id_keeps_the_cache() {
    let mut store = system(100);
    store.add_memory_with_id(1, 0, MemoryType::LongTerm, "a".to_string(), vec![], 500, None, Ok(vec![1, 2, 3])).unwrap();
    let result = store.add_memory_with_id(2, 0, MemoryType::LongTerm, "b".to_string(), vec![], 500, None, Ok(vec![1, 2]));
    match result {
        Err(MemoryError::VectorStoreError { message }) => assert_eq!(message, "vector dimension mismatch"),
        other => panic!("unexpected result: {:?}", other),
    }
    assert!(store.get_memory(2).is_err());
}
