//! The data that the memory store and the emotional engine share.
use vstd::prelude::*;
use crate::level::{is_level, clamp_spec, clamp_level, add_clamped};
use crate::external::{now_millis, new_id};

verus! {

/// The role of a stored memory.
#[derive(Clone, Copy, Debug, PartialEq, Eq, Structural)]
pub enum MemoryType {
    /// Context of the current conversation.
    ShortTerm,
    /// Important events and facts.
    LongTerm,
    /// History of emotional exchanges.
    Emotional,
    /// Likes and habits of the user.
    Preference,
    /// How the relationship developed.
    Relationship,
}

/// Four affect levels, a mood label and the time of the last change
/// (milliseconds since the Unix epoch).
#[derive(Debug, Clone)]
pub struct EmotionalState {
    pub happiness: u32,
    pub affection: u32,
    pub trust: u32,
    pub dependency: u32,
    pub mood: String,
    pub timestamp: i64,
}

/// The mathematical value of an `EmotionalState`.
pub struct EmotionalStateView {
    pub happiness: u32,
    pub affection: u32,
    pub trust: u32,
    pub dependency: u32,
    pub mood: Seq<char>,
    pub timestamp: i64,
}

impl EmotionalStateView {
    /// All four affect values are levels.
    pub open spec fn wf(self) -> bool {
        &&& is_level(self.happiness as int)
        &&& is_level(self.affection as int)
        &&& is_level(self.trust as int)
        &&& is_level(self.dependency as int)
    }
}

impl View for EmotionalState {
    type V = EmotionalStateView;

    open spec fn view(&self) -> EmotionalStateView {
        EmotionalStateView {
            happiness: self.happiness,
            affection: self.affection,
            trust: self.trust,
            dependency: self.dependency,
            mood: self.mood@,
            timestamp: self.timestamp,
        }
    }
}

impl EmotionalState {
    pub open spec fn wf(&self) -> bool {
        self@.wf()
    }

    /// A copy with the same value.
    pub fn duplicate(&self) -> (r: EmotionalState)
        ensures
            r@ == self@,
    {
        EmotionalState {
            happiness: self.happiness,
            affection: self.affection,
            trust: self.trust,
            dependency: self.dependency,
            mood: self.mood.clone(),
            timestamp: self.timestamp,
        }
    }

    /// The starting state, stamped with the given time.
    pub fn default_at(now: i64) -> (r: EmotionalState)
        ensures
            r@ == default_state_view(now),
            r.wf(),
    {
        EmotionalState {
            happiness: 500,
            affection: 300,
            trust: 300,
            dependency: 200,
            mood: String::from_str("平静"),
            timestamp: now,
        }
    }
}

/// The starting state at time `now`.
pub open spec fn default_state_view(now: i64) -> EmotionalStateView {
    EmotionalStateView {
        happiness: 500,
        affection: 300,
        trust: 300,
        dependency: 200,
        mood: "平静"@,
        timestamp: now,
    }
}

impl Default for EmotionalState {
    /// The starting state, stamped with the current time.
    fn default() -> (r: EmotionalState)
        ensures
            r@ == default_state_view(r.timestamp),
            r.wf(),
    {
        EmotionalState::default_at(now_millis())
    }
}


/// One stored memory. Identity and creation time never change; access
/// bookkeeping, importance and the optional embedding do.
#[derive(Debug, Clone)]
pub struct MemoryEntry {
    pub id: u128,
    pub memory_type: MemoryType,
    pub content: String,
    pub keywords: Vec<String>,
    /// Quantised embedding of `content`, if the provider produced one.
    pub embedding: Option<Vec<i16>>,
    pub emotional_context: Option<EmotionalState>,
    /// A level: 1000 stands for 1.0.
    pub importance: u32,
    pub created_at: i64,
    pub last_accessed: i64,
    pub access_count: u32,
    pub metadata: Vec<(String, String)>,
}

/// The mathematical value of a `MemoryEntry`.
pub struct MemoryEntryView {
    pub id: u128,
    pub memory_type: MemoryType,
    pub content: Seq<char>,
    pub keywords: Seq<Seq<char>>,
    pub embedding: Option<Seq<i16>>,
    pub emotional_context: Option<EmotionalStateView>,
    pub importance: u32,
    pub created_at: i64,
    pub last_accessed: i64,
    pub access_count: u32,
    pub metadata: Seq<(Seq<char>, Seq<char>)>,
}

impl MemoryEntryView {
    /// Importance is a level.
    pub open spec fn wf(self) -> bool {
        is_level(self.importance as int)
    }

    /// The same entry after one more access at time `now`.
    pub open spec fn accessed(self, now: i64) -> MemoryEntryView {
        MemoryEntryView {
            last_accessed: now,
            access_count: if self.access_count < u32::MAX { (self.access_count + 1) as u32 } else { u32::MAX },
            ..self
        }
    }
}

pub open spec fn strings_view(v: Seq<String>) -> Seq<Seq<char>> {
    v.map_values(|s: String| s@)
}

pub open spec fn pairs_view(v: Seq<(String, String)>) -> Seq<(Seq<char>, Seq<char>)> {
    v.map_values(|p: (String, String)| (p.0@, p.1@))
}

pub open spec fn context_view(c: Option<EmotionalState>) -> Option<EmotionalStateView> {
    match c {
        Some(s) => Some(s@),
        None => None,
    }
}

pub open spec fn embedding_view(e: Option<Vec<i16>>) -> Option<Seq<i16>> {
    match e {
        Some(v) => Some(v@),
        None => None,
    }
}

impl View for MemoryEntry {
    type V = MemoryEntryView;

    open spec fn view(&self) -> MemoryEntryView {
        MemoryEntryView {
            id: self.id,
            memory_type: self.memory_type,
            content: self.content@,
            keywords: strings_view(self.keywords@),
            embedding: embedding_view(self.embedding),
            emotional_context: context_view(self.emotional_context),
            importance: self.importance,
            created_at: self.created_at,
            last_accessed: self.last_accessed,
            access_count: self.access_count,
            metadata: pairs_view(self.metadata@),
        }
    }
}

/// A copy of a list of strings with the same value.
pub fn duplicate_strings(v: &Vec<String>) -> (r: Vec<String>)
    ensures
        strings_view(r@) == strings_view(v@),
{
    let mut r: Vec<String> = Vec::new();
    let mut i: usize = 0;
    while i < v.len()
        invariant
            i <= v.len(),
            strings_view(r@) == strings_view(v@.take(i as int)),
        decreases v.len() - i,
    {
        let ghost prev = r@;
        let c = v[i].clone();
        assert(c@ == v@[i as int]@);
        r.push(c);
        proof {
            assert(v@.take(i + 1) == v@.take(i as int).push(v@[i as int]));
            assert(strings_view(r@) =~= strings_view(prev).push(c@));
            assert(strings_view(v@.take(i + 1)) =~= strings_view(v@.take(i as int)).push(v@[i as int]@));
        }
        i += 1;
    }
    assert(v@.take(v.len() as int) == v@);
    r
}

/// A copy of a list of string pairs with the same value.
fn duplicate_pairs(v: &Vec<(String, String)>) -> (r: Vec<(String, String)>)
    ensures
        pairs_view(r@) == pairs_view(v@),
{
    let mut r: Vec<(String, String)> = Vec::new();
    let mut i: usize = 0;
    while i < v.len()
        invariant
            i <= v.len(),
            pairs_view(r@) == pairs_view(v@.take(i as int)),
        decreases v.len() - i,
    {
        let ghost prev = r@;
        let c = (v[i].0.clone(), v[i].1.clone());
        r.push(c);
        proof {
            let e = v@[i as int];
            assert(v@.take(i + 1) == v@.take(i as int).push(e));
            assert(pairs_view(r@) =~= pairs_view(prev).push((c.0@, c.1@)));
            assert(pairs_view(v@.take(i + 1)) =~= pairs_view(v@.take(i as int)).push((e.0@, e.1@)));
        }
        i += 1;
    }
    assert(v@.take(v.len() as int) == v@);
    r
}

/// A copy of an integer vector with the same value.
pub fn duplicate_vector(v: &Vec<i16>) -> (r: Vec<i16>)
    ensures
        r@ == v@,
{
    let mut r: Vec<i16> = Vec::new();
    let mut i: usize = 0;
    while i < v.len()
        invariant
            i <= v.len(),
            r@ == v@.take(i as int),
        decreases v.len() - i,
    {
        r.push(v[i]);
        i += 1;
        assert(r@ =~= v@.take(i as int));
    }
    assert(v@.take(v.len() as int) =~= v@);
    r
}

/// A new entry under `id`, created and last accessed at `now`, with no
/// embedding, context or metadata, and its importance clamped.
pub open spec fn fresh_entry(
    id: u128,
    now: i64,
    memory_type: MemoryType,
    content: Seq<char>,
    keywords: Seq<Seq<char>>,
    importance: int,
) -> MemoryEntryView {
    MemoryEntryView {
        id,
        memory_type,
        content,
        keywords,
        embedding: None,
        emotional_context: None,
        importance: clamp_spec(importance) as u32,
        created_at: now,
        last_accessed: now,
        access_count: 0,
        metadata: Seq::empty(),
    }
}

impl MemoryEntry {
    /// A new entry with the given id, created and last accessed at `now`;
    /// the importance is clamped into the level range.
    pub fn new_at(id: u128, now: i64, memory_type: MemoryType, content: String, keywords: Vec<String>, importance: i64) -> (r: MemoryEntry)
        ensures
            r@ == fresh_entry(id, now, memory_type, content@, strings_view(keywords@), importance as int),
            r@.wf(),
    {
        let r = MemoryEntry {
            id,
            memory_type,
            content,
            keywords,
            embedding: None,
            emotional_context: None,
            importance: clamp_level(importance),
            created_at: now,
            last_accessed: now,
            access_count: 0,
            metadata: Vec::new(),
        };
        assert(pairs_view(r.metadata@) =~= Seq::empty());
        r
    }

    /// A new entry with a fresh id, stamped with the current time; the
    /// importance is clamped into the level range.
    pub fn new(memory_type: MemoryType, content: String, keywords: Vec<String>, importance: i64) -> (r: MemoryEntry)
        ensures
            exists|id: u128, now: i64| r@ == #[trigger] fresh_entry(id, now, memory_type, content@, strings_view(keywords@), importance as int),
            r@.wf(),
    {
        let now = now_millis();
        let id = new_id();
        MemoryEntry::new_at(id, now, memory_type, content, keywords, importance)
    }

    /// Records one access at time `now`; the count saturates.
    pub fn mark_accessed_at(&mut self, now: i64)
        ensures
            final(self)@ == old(self)@.accessed(now),
    {
        self.last_accessed = now;
        if self.access_count < u32::MAX {
            self.access_count = self.access_count + 1;
        }
    }

    /// Records one access at the current time.
    pub fn mark_accessed(&mut self)
        ensures
            exists|now: i64| final(self)@ == old(self)@.accessed(now),
    {
        let now = now_millis();
        self.mark_accessed_at(now);
    }

    /// Adds `delta` (in thousandths) to the importance and clamps the sum.
    pub fn update_importance(&mut self, delta: i64)
        ensures
            final(self)@ == (MemoryEntryView { importance: clamp_spec(old(self).importance + delta) as u32, ..old(self)@ }),
            is_level(final(self).importance as int),
    {
        self.importance = add_clamped(self.importance, delta);
    }

    /// A copy with the same value.
    pub fn duplicate(&self) -> (r: MemoryEntry)
        ensures
            r@ == self@,
    {
        let embedding = match &self.embedding {
            Some(v) => Some(duplicate_vector(v)),
            None => None,
        };
        let emotional_context = match &self.emotional_context {
            Some(c) => Some(c.duplicate()),
            None => None,
        };
        MemoryEntry {
            id: self.id,
            memory_type: self.memory_type,
            content: self.content.clone(),
            keywords: duplicate_strings(&self.keywords),
            embedding,
            emotional_context,
            importance: self.importance,
            created_at: self.created_at,
            last_accessed: self.last_accessed,
            access_count: self.access_count,
            metadata: duplicate_pairs(&self.metadata),
        }
    }
}

/// Settings of the memory store. Levels are in thousandths.
#[derive(Debug, Clone, Copy)]
pub struct MemoryConfig {
    /// Largest number of short-term entries kept after a sweep.
    pub short_term_limit: usize,
    /// Reserved for promotion to long-term memory; no operation reads it.
    pub long_term_threshold: u32,
    /// Least similarity, as a level, that retrieval accepts.
    pub similarity_threshold: u32,
    /// Seconds between background sweeps.
    pub cleanup_interval: u64,
}

impl Default for MemoryConfig {
    fn default() -> (r: MemoryConfig)
        ensures
            r.short_term_limit == 100,
            r.long_term_threshold == 700,
            r.similarity_threshold == 800,
            r.cleanup_interval == 3600,
    {
        MemoryConfig {
            short_term_limit: 100,
            long_term_threshold: 700,
            similarity_threshold: 800,
            cleanup_interval: 3600,
        }
    }
}

/// Failures of the memory store.
#[derive(Debug)]
pub enum MemoryError {
    /// No entry has this id.
    NotFound { id: u128 },
    /// The vector index refused an operation.
    VectorStoreError { message: String },
    /// A payload could not be encoded or decoded.
    SerializationError(String),
    /// An outside service (such as the embedding provider) failed.
    DatabaseError(String),
}

} // verus!
