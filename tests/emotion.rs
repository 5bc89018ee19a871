use mira::emotion::{chars_of, EmotionalEngine, EmotionalTrigger};
use mira::{EmotionalState, MemoryEntry, MemoryType};

fn state_at(now: i64) -> EmotionalState {
    EmotionalState::default_at(now)
}

#[test]
fn test_emotional_trigger_processing() {
    let engine = EmotionalEngine::new();
    let initial_state = EmotionalState::default();

    let new_state = engine.process_trigger(&initial_state, EmotionalTrigger::PositiveInteraction, 1000);

    assert!(new_state.happiness > initial_state.happiness);
    assert!(new_state.affection > initial_state.affection);
}

#[test]
fn test_interaction_analysis() {
    let engine = EmotionalEngine::new();
    let memories: Vec<MemoryEntry> = vec![];

    let triggers = engine.analyze_interaction("你真聪明！我很喜欢你", &memories);

    assert!(!triggers.is_empty());
    assert!(triggers
        .iter()
        .any(|(trigger, _)| matches!(trigger, EmotionalTrigger::PositiveInteraction | EmotionalTrigger::BeingPraised)));
}

#[test]
fn interaction_intensities_follow_keyword_counts() {
    let engine = EmotionalEngine::new();
    let memories: Vec<MemoryEntry> = vec![];
    let triggers = engine.analyze_interaction("你真聪明！我很喜欢你", &memories);
    assert_eq!(
        triggers,
        vec![(EmotionalTrigger::PositiveInteraction, 300), (EmotionalTrigger::BeingPraised, 500)]
    );
    let triggers = engine.analyze_interaction("讨厌，好烦", &memories);
    assert_eq!(
        triggers,
        vec![(EmotionalTrigger::PositiveInteraction, 300), (EmotionalTrigger::NegativeInteraction, 800)]
    );
    assert!(engine.analyze_interaction("hello", &memories).is_empty());
}

#[test]
fn long_conversation_needs_more_than_ten_short_term_memories() {
    let engine = EmotionalEngine::new();
    let mut memories: Vec<MemoryEntry> = Vec::new();
    for _ in 0..10 {
        memories.push(MemoryEntry::new(MemoryType::ShortTerm, "x".to_string(), vec![], 500));
    }
    memories.push(MemoryEntry::new(MemoryType::LongTerm, "y".to_string(), vec![], 500));
    assert!(engine.analyze_interaction("hello", &memories).is_empty());
    memories.push(MemoryEntry::new(MemoryType::ShortTerm, "z".to_string(), vec![], 500));
    assert_eq!(
        engine.analyze_interaction("hello", &memories),
        vec![(EmotionalTrigger::LongConversation, 300)]
    );
}

#[test]
fn praise_raises_happiness_and_affection_from_default() {
    let engine = EmotionalEngine::new();
    let initial = state_at(1_000);
    let praised = engine.process_trigger_at(&initial, EmotionalTrigger::BeingPraised, 1000, 2_000);
    assert!(praised.happiness > initial.happiness);
    assert!(praised.affection > initial.affection);
    assert_eq!(praised.happiness, 650);
    assert_eq!(praised.affection, 400);
    assert_eq!(praised.trust, 350);
    assert_eq!(praised.dependency, 230);
    assert_eq!(praised.mood, "害羞");
    assert_eq!(praised.timestamp, 2_000);
}

#[test]
fn repeated_positive_interaction_stays_within_one() {
    let engine = EmotionalEngine::new();
    let mut state = state_at(0);
    for _ in 0..100 {
        state = engine.process_trigger_at(&state, EmotionalTrigger::PositiveInteraction, 1000, 0);
        assert!(state.happiness <= 1000);
        assert!(state.affection <= 1000);
        assert!(state.trust <= 1000);
        assert!(state.dependency <= 1000);
    }
    assert_eq!(state.happiness, 1000);
    assert_eq!(state.affection, 1000);
}

#[test]
fn intensity_is_clamped_and_scaled() {
    let engine = EmotionalEngine::new();
    let initial = state_at(0);
    let strong = engine.process_trigger_at(&initial, EmotionalTrigger::PositiveInteraction, 5000, 0);
    let full = engine.process_trigger_at(&initial, EmotionalTrigger::PositiveInteraction, 1000, 0);
    assert_eq!(strong.happiness, full.happiness);
    let negative = engine.process_trigger_at(&initial, EmotionalTrigger::NegativeInteraction, 500, 0);
    assert_eq!(negative.happiness, 450);
    assert_eq!(negative.affection, 285);
    assert_eq!(negative.trust, 275);
    assert_eq!(negative.dependency, 205);
    assert_eq!(negative.mood, "难过");
    let none = engine.process_trigger_at(&initial, EmotionalTrigger::BeingPraised, -3, 0);
    assert_eq!(none.happiness, 500);
}

#[test]
fn unknown_trigger_leaves_state_unchanged() {
    let engine = EmotionalEngine::new();
    let initial = state_at(5);
    let after = engine.process_trigger_at(&initial, EmotionalTrigger::SharingSecret, 1000, 99);
    assert_eq!(after.happiness, initial.happiness);
    assert_eq!(after.mood, initial.mood);
    assert_eq!(after.timestamp, 5);
}

#[test]
fn decay_waits_for_a_full_interval() {
    let engine = EmotionalEngine::new();
    let start = state_at(0);
    let hour: i64 = 3_600_000;
    let early = engine.apply_time_decay_at(&start, 23 * hour);
    assert_eq!(early.happiness, 500);
    assert_eq!(early.timestamp, 0);
    let later = engine.apply_time_decay_at(&start, 48 * hour);
    assert_eq!(later.happiness, 480);
    assert_eq!(later.affection, 290);
    assert_eq!(later.trust, 290);
    assert_eq!(later.dependency, 190);
    assert_eq!(later.mood, "有点难过");
    assert_eq!(later.timestamp, 48 * hour);
}

#[test]
fn decay_is_capped_at_half_and_never_passes_the_floor() {
    let engine = EmotionalEngine::new();
    let hour: i64 = 3_600_000;
    let mut low = state_at(0);
    low.happiness = 100;
    let decayed = engine.apply_time_decay_at(&low, 1000 * hour);
    assert_eq!(decayed.happiness, 200);
    let mut high = state_at(0);
    high.happiness = 900;
    let decayed = engine.apply_time_decay_at(&high, 1000 * hour);
    assert_eq!(decayed.happiness, 600);
}

#[test]
fn decay_twice_at_the_same_moment_changes_nothing_more() {
    let engine = EmotionalEngine::new();
    let hour: i64 = 3_600_000;
    let start = state_at(0);
    let once = engine.apply_time_decay_at(&start, 72 * hour);
    let twice = engine.apply_time_decay_at(&once, 72 * hour);
    assert_eq!(once.happiness, twice.happiness);
    assert_eq!(once.affection, twice.affection);
    assert_eq!(once.trust, twice.trust);
    assert_eq!(once.dependency, twice.dependency);
    assert_eq!(once.mood, twice.mood);
    assert_eq!(once.timestamp, twice.timestamp);
}

#[test]
fn mood_bands() {
    assert_eq!(mira::emotion::mood_label(800, 800, 800), "超级开心");
    assert_eq!(mira::emotion::mood_label(800, 800, 799), "开心");
    assert_eq!(mira::emotion::mood_label(600, 600, 600), "开心");
    assert_eq!(mira::emotion::mood_label(400, 400, 400), "平静");
    assert_eq!(mira::emotion::mood_label(200, 200, 200), "有点难过");
    assert_eq!(mira::emotion::mood_label(199, 200, 200), "很难过");
}

#[test]
fn expressions_follow_mood_and_intensity() {
    let engine = EmotionalEngine::new();
    let mut state = state_at(0);
    state.mood = "开心".to_string();
    state.happiness = 900;
    state.affection = 900;
    assert_eq!(engine.generate_emotional_expression(&state, "你好"), "你好 (*≧ω≦*)");
    state.happiness = 500;
    state.affection = 500;
    assert_eq!(engine.generate_emotional_expression(&state, "你好"), "你好 ^^");
    state.happiness = 100;
    state.affection = 100;
    assert_eq!(engine.generate_emotional_expression(&state, "你好"), "你好");
    state.mood = "平静".to_string();
    state.happiness = 900;
    state.affection = 900;
    assert_eq!(engine.generate_emotional_expression(&state, "你好"), "你好");
}

#[test]
fn characters_of_a_string() {
    assert_eq!(chars_of("猫a"), vec!['猫', 'a']);
    assert!(chars_of("").is_empty());
}

#[test]
fn default_state_is_stamped_with_the_clock() {
    let state = EmotionalState::default();
    assert!(state.timestamp > 1_600_000_000_000);
    assert_eq!(state.happiness, 500);
    assert_eq!(state.mood, "平静");
}
