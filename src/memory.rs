//! The memory store: a cache of scored entries, similarity retrieval
//! through a vector index, importance scoring and short-term eviction.
use vstd::prelude::*;
use dashmap::DashMap;
use crate::level::{is_level, clamp_spec, add_clamped};
use crate::types::{fresh_entry, EmotionalState, EmotionalStateView, MemoryConfig, MemoryEntry, MemoryEntryView, MemoryError, MemoryType};
use crate::cache::{cache_contents, cache_new, cache_insert, cache_remove, cache_get, cache_snapshot};
use crate::vector_store::{VectorStore, stat_pairs, dot, search_ok, has_id, stored, lemma_round_trip};
use crate::external::{now_millis, new_id};

verus! {

/// The memory store of one user.
pub struct MemorySystem<V: VectorStore> {
    memory_cache: DashMap<u128, MemoryEntry>,
    vector_store: V,
    current_emotion: EmotionalState,
    user_id: String,
    config: MemoryConfig,
}

/// Every cached entry is stored under its own id with a level as importance.
pub open spec fn cache_wf(c: Map<u128, MemoryEntryView>) -> bool {
    &&& c.dom().finite()
    &&& forall|k: u128| #[trigger] c.contains_key(k) ==> c[k].id == k && c[k].wf()
}

/// The category bias of importance scoring, in thousandths.
pub open spec fn category_bias(t: MemoryType) -> int {
    match t {
        MemoryType::Emotional | MemoryType::Relationship => 200,
        MemoryType::ShortTerm => -100,
        _ => 0,
    }
}

/// Importance after scoring: the mean of the four affect values of an
/// attached context, scaled by 0.3, is added, then the category bias; the
/// value is clamped after each step. Keywords are stored with the entry but
/// carry no weight here: the scoring rule names only the emotional context
/// and the category.
pub open spec fn contextual_importance(importance: int, context: Option<EmotionalStateView>, t: MemoryType) -> int {
    let with_context = match context {
        Some(c) => clamp_spec(importance + (c.happiness + c.affection + c.trust + c.dependency) * 300 / 4000),
        None => clamp_spec(importance),
    };
    clamp_spec(with_context + category_bias(t))
}

/// Scores the importance of a new entry.
pub fn calculate_contextual_importance(importance: u32, emotional_context: &Option<EmotionalState>, memory_type: MemoryType) -> (r: u32)
    ensures
        r as int == contextual_importance(importance as int, crate::types::context_view(*emotional_context), memory_type),
        is_level(r as int),
{
    let with_context = match emotional_context {
        Some(c) => {
            let sum: i64 = c.happiness as i64 + c.affection as i64 + c.trust as i64 + c.dependency as i64;
            add_clamped(importance, (sum * 300) / 4000)
        },
        None => add_clamped(importance, 0),
    };
    let bias: i64 = match memory_type {
        MemoryType::Emotional | MemoryType::Relationship => 200,
        MemoryType::ShortTerm => -100,
        _ => 0,
    };
    add_clamped(with_context, bias)
}

/// The ids of entries of type `t`.
pub open spec fn type_keys(c: Map<u128, MemoryEntryView>, t: MemoryType) -> Set<u128> {
    c.dom().filter(|k: u128| c[k].memory_type == t)
}

/// The ids of short-term entries.
pub open spec fn short_term_keys(c: Map<u128, MemoryEntryView>) -> Set<u128> {
    type_keys(c, MemoryType::ShortTerm)
}

/// `a` goes before `b` under eviction: less important, or equally
/// important and accessed no later.
pub open spec fn evicts_before(a: MemoryEntryView, b: MemoryEntryView) -> bool {
    a.importance < b.importance || (a.importance == b.importance && a.last_accessed <= b.last_accessed)
}

/// `after` is `before` after one eviction sweep with the given limit: only
/// short-term entries are removed, exactly as many as exceed the limit,
/// and each removed entry goes before every surviving short-term one.
pub open spec fn swept(before: Map<u128, MemoryEntryView>, after: Map<u128, MemoryEntryView>, limit: nat) -> bool {
    let st = short_term_keys(before);
    let removed = before.dom().difference(after.dom());
    &&& after.dom().subset_of(before.dom())
    &&& forall|k: u128| #[trigger] after.contains_key(k) ==> after[k] == before[k]
    &&& removed.subset_of(st)
    &&& removed.len() == if st.len() > limit { st.len() - limit } else { 0 }
    &&& forall|r: u128, s: u128| #[trigger] removed.contains(r) && st.contains(s) && !removed.contains(s)
        ==> evicts_before(before[r], #[trigger] before[s])
}

/// The ids of a list of `(id, importance, last access)` candidates.
pub open spec fn candidate_ids(c: Seq<(u128, u32, i64)>) -> Seq<u128> {
    c.map_values(|x: (u128, u32, i64)| x.0)
}

/// The entries of type `t` in the cache, as `(id, importance, last access)`.
fn entries_of_type(cache: &DashMap<u128, MemoryEntry>, t: MemoryType) -> (r: Vec<(u128, u32, i64)>)
    ensures
        candidate_ids(r@).no_duplicates(),
        candidate_ids(r@).to_set() == type_keys(cache_contents(*cache), t),
        candidate_ids(r@).len() == type_keys(cache_contents(*cache), t).len(),
        cache_contents(*cache).dom().finite(),
        forall|i: int| 0 <= i < r@.len() ==> {
            &&& cache_contents(*cache).contains_key((#[trigger] r@[i]).0)
            &&& r@[i].1 == cache_contents(*cache)[r@[i].0].importance
            &&& r@[i].2 == cache_contents(*cache)[r@[i].0].last_accessed
        },
{
    let ghost c = cache_contents(*cache);
    let snap = cache_snapshot(cache);
    let ghost keys = snap@.map_values(|p: (u128, MemoryEntry)| p.0);
    proof {
        keys.unique_seq_to_set();
    }
    let mut r: Vec<(u128, u32, i64)> = Vec::new();
    let mut i: usize = 0;
    while i < snap.len()
        invariant
            i <= snap@.len(),
            keys == snap@.map_values(|p: (u128, MemoryEntry)| p.0),
            keys.no_duplicates(),
            keys.to_set() == c.dom(),
            c == cache_contents(*cache),
            forall|j: int| 0 <= j < snap@.len() ==> (#[trigger] snap@[j]).1@ == c[snap@[j].0],
            candidate_ids(r@).no_duplicates(),
            forall|x: u128| candidate_ids(r@).contains(x) <==> (exists|j: int| 0 <= j < i && keys[j] == x && c[x].memory_type == t),
            forall|j: int| 0 <= j < r@.len() ==> {
                &&& c.contains_key((#[trigger] r@[j]).0)
                &&& r@[j].1 == c[r@[j].0].importance
                &&& r@[j].2 == c[r@[j].0].last_accessed
            },
        decreases snap.len() - i,
    {
        let ghost prev = r@;
        let k = snap[i].0;
        assert(keys[i as int] == k);
        assert(keys.to_set().contains(k));
        if snap[i].1.memory_type == t {
            r.push((k, snap[i].1.importance, snap[i].1.last_accessed));
            proof {
                assert(candidate_ids(r@) =~= candidate_ids(prev).push(k));
                assert(!candidate_ids(prev).contains(k)) by {
                    if candidate_ids(prev).contains(k) {
                        let j = choose|j: int| 0 <= j < i && keys[j] == k && c[k].memory_type == t;
                        assert(keys[j] == keys[i as int]);
                    }
                };
                assert forall|x: u128| candidate_ids(r@).contains(x) <==> (exists|j: int| 0 <= j < i + 1 && keys[j] == x && c[x].memory_type == t) by {
                    if x == k {
                        assert(candidate_ids(r@)[prev.len() as int] == x);
                        assert(snap@[i as int].1@ == c[k]);
                        assert(c[k].memory_type == t);
                        assert(0 <= i < i + 1 && keys[i as int] == x && c[x].memory_type == t);
                    } else {
                        if candidate_ids(r@).contains(x) {
                            let w = choose|w: int| 0 <= w < candidate_ids(r@).len() && candidate_ids(r@)[w] == x;
                            assert(w < prev.len());
                            assert(candidate_ids(prev)[w] == x);
                            assert(candidate_ids(prev).contains(x));
                            let j = choose|j: int| 0 <= j < i && keys[j] == x && c[x].memory_type == t;
                            assert(0 <= j < i + 1 && keys[j] == x && c[x].memory_type == t);
                        }
                        if exists|j: int| 0 <= j < i + 1 && keys[j] == x && c[x].memory_type == t {
                            let j = choose|j: int| 0 <= j < i + 1 && keys[j] == x && c[x].memory_type == t;
                            assert(j < i);
                            assert(candidate_ids(prev).contains(x));
                            let w = choose|w: int| 0 <= w < candidate_ids(prev).len() && candidate_ids(prev)[w] == x;
                            assert(candidate_ids(r@)[w] == x);
                        }
                    }
                }
            }
        } else {
            proof {
                assert forall|x: u128| candidate_ids(r@).contains(x) <==> (exists|j: int| 0 <= j < i + 1 && keys[j] == x && c[x].memory_type == t) by {
                    if exists|j: int| 0 <= j < i + 1 && keys[j] == x && c[x].memory_type == t {
                        let j = choose|j: int| 0 <= j < i + 1 && keys[j] == x && c[x].memory_type == t;
                        assert(j != i);
                    }
                }
            }
        }
        i += 1;
    }
    proof {
        assert forall|x: u128| candidate_ids(r@).to_set().contains(x) <==> type_keys(c, t).contains(x) by {
            if type_keys(c, t).contains(x) {
                assert(keys.to_set().contains(x));
                let j = choose|j: int| 0 <= j < keys.len() && keys[j] == x;
                assert(candidate_ids(r@).contains(x));
            }
        }
        assert(candidate_ids(r@).to_set() =~= type_keys(c, t));
        candidate_ids(r@).unique_seq_to_set();
    }
    r
}

/// The entry that `add_memory_with_id` builds under `id` at time `now`:
/// importance is the clamped input, scored by `contextual_importance`, and
/// the embedding is the provider's vector if it produced one.
pub open spec fn new_entry_view(
    id: u128,
    now: i64,
    memory_type: MemoryType,
    content: Seq<char>,
    keywords: Seq<Seq<char>>,
    importance: int,
    context: Option<EmotionalStateView>,
    embedding: Option<Seq<i16>>,
) -> MemoryEntryView {
    MemoryEntryView {
        embedding,
        emotional_context: context,
        importance: contextual_importance(clamp_spec(importance), context, memory_type) as u32,
        ..fresh_entry(id, now, memory_type, content, keywords, importance)
    }
}

/// The cache after entry `e` is added: inserted under its id and, for a
/// short-term entry, swept.
pub open spec fn cached_after_add(before: Map<u128, MemoryEntryView>, after: Map<u128, MemoryEntryView>, limit: nat, e: MemoryEntryView) -> bool {
    if e.memory_type == MemoryType::ShortTerm {
        swept(before.insert(e.id, e), after, limit)
    } else {
        after == before.insert(e.id, e)
    }
}

/// The embedding a provider result carries, if any.
pub open spec fn embedding_of(r: Result<Vec<i16>, String>) -> Option<Seq<i16>> {
    match r {
        Ok(v) => Some(v@),
        Err(_) => None,
    }
}

/// The retrieval limit: the given one, or 10.
pub open spec fn limit_or_default(limit: Option<usize>) -> nat {
    match limit {
        Some(l) => l as nat,
        None => 10,
    }
}

/// How many candidates retrieval asks the index for: twice the limit,
/// saturating at the largest `usize`.
pub open spec fn candidate_count(limit: Option<usize>) -> nat {
    let l = limit_or_default(limit);
    if 2 * l <= usize::MAX { 2 * l } else { usize::MAX as nat }
}

/// The ids of a list of entries.
pub open spec fn entry_ids(s: Seq<MemoryEntryView>) -> Seq<u128> {
    s.map_values(|e: MemoryEntryView| e.id)
}

/// An entry of type `t` passes the optional category filter.
pub open spec fn passes_filter(filter: Option<Seq<MemoryType>>, t: MemoryType) -> bool {
    match filter {
        Some(ts) => ts.contains(t),
        None => true,
    }
}

/// The category filter a caller passed.
pub open spec fn filter_view(filter: Option<Vec<MemoryType>>) -> Option<Seq<MemoryType>> {
    match filter {
        Some(v) => Some(v@),
        None => None,
    }
}

/// Candidate ids looked up in the cache, in order, at time `now`: an id
/// that is cached, passes the filter and arrives while fewer than `limit`
/// entries are collected is marked accessed and collected; other ids are
/// skipped. The result is the updated cache and the collected entries.
pub open spec fn hydrate(
    ids: Seq<u128>,
    cache: Map<u128, MemoryEntryView>,
    filter: Option<Seq<MemoryType>>,
    limit: nat,
    now: i64,
) -> (Map<u128, MemoryEntryView>, Seq<MemoryEntryView>)
    decreases ids.len(),
{
    if ids.len() == 0 {
        (cache, Seq::empty())
    } else {
        let prev = hydrate(ids.drop_last(), cache, filter, limit, now);
        let id = ids.last();
        if prev.1.len() < limit && prev.0.contains_key(id) && passes_filter(filter, prev.0[id].memory_type) {
            let e = prev.0[id].accessed(now);
            (prev.0.insert(id, e), prev.1.push(e))
        } else {
            prev
        }
    }
}

/// `a` may precede `b` in retrieval order: more important, or equally
/// important and accessed no earlier.
pub open spec fn ranks_before(a: MemoryEntryView, b: MemoryEntryView) -> bool {
    a.importance > b.importance || (a.importance == b.importance && a.last_accessed >= b.last_accessed)
}

/// The entries are in retrieval order.
pub open spec fn ranked(s: Seq<MemoryEntryView>) -> bool {
    forall|i: int, j: int| 0 <= i < j < s.len() ==> ranks_before(#[trigger] s[i], #[trigger] s[j])
}

/// The values of a list of entries.
pub open spec fn entries_view(v: Seq<MemoryEntry>) -> Seq<MemoryEntryView> {
    v.map_values(|e: MemoryEntry| e@)
}

/// Hydration keeps each cached entry under its own id, and collects only
/// entries whose ids were asked for; from distinct ids it collects distinct
/// entries.
pub proof fn lemma_hydrate_ids(
    ids: Seq<u128>,
    cache: Map<u128, MemoryEntryView>,
    filter: Option<Seq<MemoryType>>,
    limit: nat,
    now: i64,
)
    requires
        forall|k: u128| #[trigger] cache.contains_key(k) ==> cache[k].id == k,
    ensures
        hydrate(ids, cache, filter, limit, now).0.dom() == cache.dom(),
        forall|k: u128| #[trigger] hydrate(ids, cache, filter, limit, now).0.contains_key(k)
            ==> hydrate(ids, cache, filter, limit, now).0[k].id == k,
        forall|j: int| 0 <= j < hydrate(ids, cache, filter, limit, now).1.len()
            ==> ids.contains(#[trigger] hydrate(ids, cache, filter, limit, now).1[j].id)
                && cache.contains_key(hydrate(ids, cache, filter, limit, now).1[j].id),
        ids.no_duplicates() ==> entry_ids(hydrate(ids, cache, filter, limit, now).1).no_duplicates(),
    decreases ids.len(),
{
    if ids.len() > 0 {
        let rest = ids.drop_last();
        let id = ids.last();
        lemma_hydrate_ids(rest, cache, filter, limit, now);
        let prev = hydrate(rest, cache, filter, limit, now);
        let h = hydrate(ids, cache, filter, limit, now);
        if prev.1.len() < limit && prev.0.contains_key(id) && passes_filter(filter, prev.0[id].memory_type) {
            assert(h.0.dom() =~= cache.dom());
            assert forall|j: int| 0 <= j < h.1.len() implies ids.contains(#[trigger] h.1[j].id) by {
                if j < prev.1.len() {
                    assert(h.1[j] == prev.1[j]);
                    let w = choose|w: int| 0 <= w < rest.len() && rest[w] == prev.1[j].id;
                    assert(ids[w] == rest[w]);
                } else {
                    assert(ids[ids.len() - 1] == id);
                }
            }
            if ids.no_duplicates() {
                assert(rest.no_duplicates()) by {
                    assert forall|a: int, b: int| 0 <= a < rest.len() && 0 <= b < rest.len() && a != b implies rest[a] != rest[b] by {
                        assert(ids[a] != ids[b]);
                    }
                }
                assert(entry_ids(h.1) =~= entry_ids(prev.1).push(id));
                assert forall|a: int, b: int| 0 <= a < entry_ids(h.1).len() && 0 <= b < entry_ids(h.1).len() && a != b
                    implies entry_ids(h.1)[a] != entry_ids(h.1)[b] by {
                    let n = prev.1.len() as int;
                    if a < n && b < n {
                        assert(entry_ids(prev.1)[a] != entry_ids(prev.1)[b]);
                    } else {
                        let x = if a < n { a } else { b };
                        if x < n {
                            assert(ids.contains(prev.1[x].id));
                            let w = choose|w: int| 0 <= w < rest.len() && rest[w] == prev.1[x].id;
                            assert(ids[w] != ids[ids.len() - 1]);
                        }
                    }
                }
            }
        } else {
            if ids.no_duplicates() {
                assert(rest.no_duplicates()) by {
                    assert forall|a: int, b: int| 0 <= a < rest.len() && 0 <= b < rest.len() && a != b implies rest[a] != rest[b] by {
                        assert(ids[a] != ids[b]);
                    }
                }
            }
            assert forall|j: int| 0 <= j < h.1.len() implies ids.contains(#[trigger] h.1[j].id) by {
                let w = choose|w: int| 0 <= w < rest.len() && rest[w] == prev.1[j].id;
                assert(ids[w] == rest[w]);
            }
        }
    }
}

/// Strictly descending in importance.
pub open spec fn strictly_descending(s: Seq<MemoryEntryView>) -> bool {
    forall|i: int, j: int| 0 <= i < j < s.len() ==> (#[trigger] s[i]).importance > (#[trigger] s[j]).importance
}

/// Two sequences strictly descending in importance that hold the same
/// entries are equal.
pub proof fn lemma_descending_unique(v1: Seq<MemoryEntryView>, v2: Seq<MemoryEntryView>)
    requires
        strictly_descending(v1),
        strictly_descending(v2),
        forall|x: MemoryEntryView| v1.contains(x) <==> v2.contains(x),
    ensures
        v1 == v2,
    decreases v1.len(),
{
    if v1.len() == 0 {
        if v2.len() > 0 {
            assert(v2.contains(v2[0]));
        }
        assert(v1 =~= v2);
    } else {
        assert(v1.contains(v1[0]));
        let j = choose|j: int| 0 <= j < v2.len() && v2[j] == v1[0];
        assert(v2.contains(v2[0]));
        let i = choose|i: int| 0 <= i < v1.len() && v1[i] == v2[0];
        if i > 0 {
            assert(v1[0].importance > v1[i].importance);
        }
        if j > 0 {
            assert(v2[0].importance > v2[j].importance);
        }
        assert(v1[0] == v2[0]);
        let r1 = v1.drop_first();
        let r2 = v2.drop_first();
        assert forall|x: MemoryEntryView| r1.contains(x) <==> r2.contains(x) by {
            if r1.contains(x) {
                let a = choose|a: int| 0 <= a < r1.len() && r1[a] == x;
                assert(v1[a + 1] == x);
                assert(v1[0].importance > v1[a + 1].importance);
                assert(v1.contains(x));
                let b = choose|b: int| 0 <= b < v2.len() && v2[b] == x;
                assert(b != 0);
                assert(r2[b - 1] == x);
            }
            if r2.contains(x) {
                let a = choose|a: int| 0 <= a < r2.len() && r2[a] == x;
                assert(v2[a + 1] == x);
                assert(v2[0].importance > v2[a + 1].importance);
                assert(v2.contains(x));
                let b = choose|b: int| 0 <= b < v1.len() && v1[b] == x;
                assert(b != 0);
                assert(r1[b - 1] == x);
            }
        }
        assert(strictly_descending(r1)) by {
            assert forall|a: int, b: int| 0 <= a < b < r1.len() implies (#[trigger] r1[a]).importance > (#[trigger] r1[b]).importance by {
                assert(r1[a] == v1[a + 1] && r1[b] == v1[b + 1]);
            }
        }
        assert(strictly_descending(r2)) by {
            assert forall|a: int, b: int| 0 <= a < b < r2.len() implies (#[trigger] r2[a]).importance > (#[trigger] r2[b]).importance by {
                assert(r2[a] == v2[a + 1] && r2[b] == v2[b + 1]);
            }
        }
        lemma_descending_unique(r1, r2);
        assert(v1 =~= v2) by {
            assert forall|k: int| 0 <= k < v1.len() implies v1[k] == v2[k] by {
                if k > 0 {
                    assert(v1[k] == r1[k - 1]);
                    assert(v2[k] == r2[k - 1]);
                }
            }
        }
    }
}

/// Retrieval ordering: when the entries a retrieval collects have pairwise
/// distinct importances, every ranked arrangement of them (as
/// `retrieve_memories` returns) is strictly descending in importance, and
/// there is only one: the result does not depend on the order in which the
/// entries were inserted or found.
pub proof fn lemma_retrieval_order_determined(s: Seq<MemoryEntryView>, v1: Seq<MemoryEntryView>, v2: Seq<MemoryEntryView>)
    requires
        forall|i: int, j: int| 0 <= i < s.len() && 0 <= j < s.len() && i != j ==> (#[trigger] s[i]).importance != (#[trigger] s[j]).importance,
        ranked(v1),
        ranked(v2),
        v1.to_multiset() == s.to_multiset(),
        v2.to_multiset() == s.to_multiset(),
    ensures
        strictly_descending(v1),
        v1 == v2,
{
    broadcast use vstd::seq_lib::group_to_multiset_ensures;
    assert(s.no_duplicates()) by {
        assert forall|i: int, j: int| 0 <= i < s.len() && 0 <= j < s.len() && i != j implies s[i] != s[j] by {
            assert(s[i].importance != s[j].importance);
        }
    }
    s.lemma_multiset_has_no_duplicates();
    v1.lemma_multiset_has_no_duplicates_conv();
    v2.lemma_multiset_has_no_duplicates_conv();
    assert forall|x: MemoryEntryView| v1.contains(x) <==> s.contains(x) by {
        vstd::seq_lib::to_multiset_contains(v1, x);
        vstd::seq_lib::to_multiset_contains(s, x);
    }
    assert forall|x: MemoryEntryView| v2.contains(x) <==> s.contains(x) by {
        vstd::seq_lib::to_multiset_contains(v2, x);
        vstd::seq_lib::to_multiset_contains(s, x);
    }
    assert forall|v: Seq<MemoryEntryView>| #[trigger] v.no_duplicates() && ranked(v) && (forall|x: MemoryEntryView| v.contains(x) <==> s.contains(x))
        implies strictly_descending(v) by {
        assert forall|a: int, b: int| 0 <= a < b < v.len() implies (#[trigger] v[a]).importance > (#[trigger] v[b]).importance by {
            assert(v.contains(v[a]) && v.contains(v[b]));
            assert(s.contains(v[a]) && s.contains(v[b]));
            let i = choose|i: int| 0 <= i < s.len() && s[i] == v[a];
            let j = choose|j: int| 0 <= j < s.len() && s[j] == v[b];
            assert(v[a] != v[b]);
            assert(i != j);
            assert(ranks_before(v[a], v[b]));
        }
    }
    lemma_descending_unique(v1, v2);
}

/// An entry that a sweep evicted is never returned by a later retrieval
/// from the swept cache, whatever ids the index still holds for it.
pub proof fn lemma_evicted_not_retrieved(
    before: Map<u128, MemoryEntryView>,
    after: Map<u128, MemoryEntryView>,
    sweep_limit: nat,
    ids: Seq<u128>,
    filter: Option<Seq<MemoryType>>,
    limit: nat,
    now: i64,
)
    requires
        cache_wf(before),
        swept(before, after, sweep_limit),
    ensures
        forall|j: int| 0 <= j < hydrate(ids, after, filter, limit, now).1.len()
            ==> !before.dom().difference(after.dom()).contains(#[trigger] hydrate(ids, after, filter, limit, now).1[j].id),
{
    assert forall|k: u128| #[trigger] after.contains_key(k) implies after[k].id == k by {
        assert(after[k] == before[k]);
    }
    lemma_hydrate_ids(ids, after, filter, limit, now);
}

/// Round trip through the store: when the in-process index holds only the
/// nonzero vector `e`, under `id`, and the cache holds entry `id` passing the
/// filter, a retrieval whose query is `e` (at any threshold up to one, with
/// room for at least one candidate and one result) returns exactly that
/// entry, marked accessed.
pub proof fn lemma_retrieve_round_trip(
    id: u128,
    e: Seq<i16>,
    cache: Map<u128, MemoryEntryView>,
    filter: Option<Seq<MemoryType>>,
    candidates: nat,
    limit: nat,
    threshold: u32,
    now: i64,
    ids: Seq<u128>,
    v: Seq<MemoryEntryView>,
)
    requires
        dot(e, e, e.len() as int) > 0,
        candidates > 0,
        limit > 0,
        threshold <= 1000,
        cache.contains_key(id),
        passes_filter(filter, cache[id].memory_type),
        search_ok(seq![(id, e)], e, candidates as int, threshold as int, ids),
        v.to_multiset() == hydrate(ids, cache, filter, limit, now).1.to_multiset(),
    ensures
        ids == seq![id],
        v == seq![cache[id].accessed(now)],
{
    broadcast use vstd::seq_lib::group_to_multiset_ensures;
    let entries: Seq<(u128, Seq<i16>)> = Seq::empty();
    assert(!has_id(entries, id));
    assert(stored(entries, id, e) =~= seq![(id, e)]);
    lemma_round_trip(entries, id, e, candidates as int, threshold as int, ids);
    assert(ids[0] == id);
    if ids.len() > 1 {
        assert(has_id(seq![(id, e)], ids[1]));
        assert(ids[1] == id);
        assert(ids[0] != ids[1]);
    }
    assert(ids =~= seq![id]);
    let x = cache[id].accessed(now);
    assert(ids.drop_last() =~= Seq::<u128>::empty());
    let p = hydrate(ids.drop_last(), cache, filter, limit, now);
    assert(p.0 == cache && p.1 == Seq::<MemoryEntryView>::empty());
    assert(ids.last() == id);
    let h = hydrate(ids, cache, filter, limit, now);
    assert(h.1 == p.1.push(x));
    assert(h.1 =~= seq![x]);
    assert(v.len() == 1) by {
        vstd::seq_lib::to_multiset_len(v);
        vstd::seq_lib::to_multiset_len(h.1);
    }
    assert(v[0] == x) by {
        assert(v.contains(v[0]));
        vstd::seq_lib::to_multiset_contains(v, v[0]);
        vstd::seq_lib::to_multiset_contains(h.1, v[0]);
        assert(h.1.contains(v[0]));
    }
    assert(v =~= seq![x]);
}

/// Whether `t` is among `types`.
fn contains_type(types: &Vec<MemoryType>, t: MemoryType) -> (r: bool)
    ensures
        r == types@.contains(t),
{
    let mut i: usize = 0;
    while i < types.len()
        invariant
            i <= types@.len(),
            forall|k: int| 0 <= k < i ==> types@[k] != t,
        decreases types.len() - i,
    {
        if types[i] == t {
            assert(types@[i as int] == t);
            return true;
        }
        i += 1;
    }
    false
}

/// Sorts entries into retrieval order.
fn rank_entries(entries: Vec<MemoryEntry>) -> (r: Vec<MemoryEntry>)
    ensures
        ranked(entries_view(r@)),
        entries_view(r@).to_multiset() == entries_view(entries@).to_multiset(),
{
    broadcast use vstd::seq_lib::group_to_multiset_ensures;
    let ghost all = entries_view(entries@);
    let mut rest = entries;
    let mut out: Vec<MemoryEntry> = Vec::new();
    while rest.len() > 0
        invariant
            ranked(entries_view(out@)),
            forall|i: int, j: int| 0 <= i < out@.len() && 0 <= j < rest@.len() ==> ranks_before(#[trigger] out@[i]@, #[trigger] rest@[j]@),
            entries_view(out@).to_multiset().add(entries_view(rest@).to_multiset()) == all.to_multiset(),
        decreases rest.len(),
    {
        let mut best: usize = 0;
        let mut j: usize = 1;
        while j < rest.len()
            invariant
                0 <= best < j <= rest@.len(),
                forall|k: int| 0 <= k < j ==> ranks_before(rest@[best as int]@, #[trigger] rest@[k]@),
            decreases rest.len() - j,
        {
            if rest[j].importance > rest[best].importance
                || (rest[j].importance == rest[best].importance && rest[j].last_accessed > rest[best].last_accessed) {
                best = j;
            }
            j += 1;
        }
        let ghost rv = entries_view(rest@);
        let ghost ov = entries_view(out@);
        let ghost prev_rest = rest@;
        let ghost prev_out = out@;
        let x = rest.remove(best);
        out.push(x);
        proof {
            assert(entries_view(rest@) =~= rv.remove(best as int));
            assert(entries_view(out@) =~= ov.push(rv[best as int]));
            vstd::seq_lib::to_multiset_remove(rv, best as int);
            vstd::seq_lib::to_multiset_build(ov, rv[best as int]);
            assert(rv.contains(rv[best as int]));
            vstd::seq_lib::to_multiset_contains(rv, rv[best as int]);
            assert(entries_view(out@).to_multiset().add(entries_view(rest@).to_multiset()) =~= all.to_multiset());
            assert forall|i: int, k: int| 0 <= i < k < out@.len() implies ranks_before(#[trigger] entries_view(out@)[i], #[trigger] entries_view(out@)[k]) by {
                if k < out@.len() - 1 {
                    assert(entries_view(out@)[i] == ov[i]);
                    assert(entries_view(out@)[k] == ov[k]);
                } else {
                    assert(out@[i] == prev_out[i]);
                    assert(out@[k] == prev_rest[best as int]);
                }
            }
            assert forall|i: int, k: int| 0 <= i < out@.len() && 0 <= k < rest@.len() implies ranks_before(#[trigger] out@[i]@, #[trigger] rest@[k]@) by {
                let k2 = if k < best { k } else { k + 1 };
                assert(rest@[k] == prev_rest[k2]);
                if i < out@.len() - 1 {
                    assert(out@[i] == prev_out[i]);
                } else {
                    assert(out@[i] == prev_rest[best as int]);
                }
            }
        }
    }
    assert(entries_view(rest@) =~= Seq::empty());
    out
}

/// The name under which statistics count entries of type `t`.
pub open spec fn category_name(t: MemoryType) -> Seq<char> {
    match t {
        MemoryType::ShortTerm => "ShortTerm"@,
        MemoryType::LongTerm => "LongTerm"@,
        MemoryType::Emotional => "Emotional"@,
        MemoryType::Preference => "Preference"@,
        MemoryType::Relationship => "Relationship"@,
    }
}

/// The statistics line for type `t`: its count, when some entry has it.
pub open spec fn stat_line(c: Map<u128, MemoryEntryView>, t: MemoryType) -> Seq<(Seq<char>, u64)> {
    if type_keys(c, t).len() > 0 {
        seq![(category_name(t), type_keys(c, t).len() as u64)]
    } else {
        seq![]
    }
}

/// Statistics of a cache: the count of each type present, in a fixed
/// order, then the total.
pub open spec fn stats_view(c: Map<u128, MemoryEntryView>) -> Seq<(Seq<char>, u64)> {
    stat_line(c, MemoryType::ShortTerm) + stat_line(c, MemoryType::LongTerm) + stat_line(c, MemoryType::Emotional)
        + stat_line(c, MemoryType::Preference) + stat_line(c, MemoryType::Relationship)
        + seq![("total"@, c.dom().len() as u64)]
}

fn type_label(t: MemoryType) -> (r: String)
    ensures
        r@ == category_name(t),
{
    match t {
        MemoryType::ShortTerm => String::from_str("ShortTerm"),
        MemoryType::LongTerm => String::from_str("LongTerm"),
        MemoryType::Emotional => String::from_str("Emotional"),
        MemoryType::Preference => String::from_str("Preference"),
        MemoryType::Relationship => String::from_str("Relationship"),
    }
}

/// Appends the statistics line for type `t`.
fn push_stat_line(cache: &DashMap<u128, MemoryEntry>, t: MemoryType, out: &mut Vec<(String, u64)>)
    ensures
        stat_pairs(final(out)@) == stat_pairs(old(out)@) + stat_line(cache_contents(*cache), t),
{
    let n = entries_of_type(cache, t).len();
    let ghost prev = stat_pairs(out@);
    if n > 0 {
        out.push((type_label(t), n as u64));
        assert(stat_pairs(out@) =~= prev + stat_line(cache_contents(*cache), t));
    } else {
        assert(stat_pairs(out@) =~= prev + stat_line(cache_contents(*cache), t));
    }
}


/// Eviction law: when `limit + k` short-term entries are cached, a sweep
/// removes exactly `k` of them, leaves `limit` short-term entries, and every
/// removed entry goes before every survivor in the eviction order (lower
/// importance, then older access).
pub proof fn lemma_sweep_keeps_highest(
    before: Map<u128, MemoryEntryView>,
    after: Map<u128, MemoryEntryView>,
    limit: nat,
    k: nat,
)
    requires
        cache_wf(before),
        short_term_keys(before).len() == limit + k,
        swept(before, after, limit),
    ensures
        before.dom().difference(after.dom()).len() == k,
        short_term_keys(after).len() == limit,
        forall|r: u128, s: u128| #[trigger] before.dom().difference(after.dom()).contains(r) && #[trigger] short_term_keys(after).contains(s)
            ==> evicts_before(before[r], after[s]),
{
    let st = short_term_keys(before);
    let removed = before.dom().difference(after.dom());
    assert(short_term_keys(after) =~= st.difference(removed));
    assert(st.intersect(removed) =~= removed);
    vstd::set_lib::lemma_set_subset_finite(before.dom(), st);
    vstd::set_lib::lemma_set_subset_finite(st, removed);
    vstd::set_lib::lemma_set_difference_len(st, removed);
    assert forall|r: u128, s: u128| #[trigger] removed.contains(r) && #[trigger] short_term_keys(after).contains(s)
        implies evicts_before(before[r], after[s]) by {
        assert(after[s] == before[s]);
        assert(st.contains(s) && !removed.contains(s));
    }
}

impl<V: VectorStore> MemorySystem<V> {
    /// The cached entries by id.
    pub closed spec fn cache_view(&self) -> Map<u128, MemoryEntryView> {
        cache_contents(self.memory_cache)
    }

    /// The store's settings.
    pub closed spec fn config_view(&self) -> MemoryConfig {
        self.config
    }

    /// The shared emotional state.
    pub closed spec fn emotion_view(&self) -> EmotionalStateView {
        self.current_emotion@
    }

    /// The user the store belongs to.
    pub closed spec fn user_view(&self) -> Seq<char> {
        self.user_id@
    }

    /// The vector index.
    pub closed spec fn index_view(&self) -> V {
        self.vector_store
    }

    pub open spec fn wf(&self) -> bool {
        cache_wf(self.cache_view())
    }

    /// An empty store over the given index, with the given settings or the
    /// defaults, and the starting emotional state.
    pub fn new(user_id: String, vector_store: V, config: Option<MemoryConfig>) -> (r: Result<Self, MemoryError>)
        ensures
            r matches Ok(s) && {
                &&& s.wf()
                &&& s.cache_view().dom().len() == 0
                &&& s.user_view() == user_id@
                &&& s.index_view() == vector_store
                &&& s.config_view() == match config {
                    Some(c) => c,
                    None => MemoryConfig { short_term_limit: 100, long_term_threshold: 700, similarity_threshold: 800, cleanup_interval: 3600 },
                }
                &&& s.emotion_view() == crate::types::default_state_view(s.emotion_view().timestamp)
            },
    {
        let config = match config {
            Some(c) => c,
            None => MemoryConfig::default(),
        };
        let memory_cache = cache_new();
        let s = MemorySystem { memory_cache, vector_store, current_emotion: EmotionalState::default(), user_id, config };
        assert(s.cache_view().dom() =~= Set::empty());
        Ok(s)
    }

    /// The user the store belongs to.
    pub fn user_id(&self) -> (r: &String)
        ensures
            r@ == self.user_view(),
    {
        &self.user_id
    }

    /// The store's settings.
    pub fn config(&self) -> (r: MemoryConfig)
        ensures
            r == self.config_view(),
    {
        self.config
    }

    /// Replaces the shared emotional state.
    pub fn update_emotional_state(&mut self, new_state: EmotionalState)
        ensures
            final(self).emotion_view() == new_state@,
            final(self).cache_view() == old(self).cache_view(),
            final(self).config_view() == old(self).config_view(),
            final(self).user_view() == old(self).user_view(),
            final(self).index_view() == old(self).index_view(),
    {
        self.current_emotion = new_state;
    }

    /// A copy of the shared emotional state.
    pub fn get_emotional_state(&self) -> (r: EmotionalState)
        ensures
            r@ == self.emotion_view(),
    {
        self.current_emotion.duplicate()
    }

    /// The cached entry under `id`.
    pub fn get_memory(&self, id: u128) -> (r: Result<MemoryEntry, MemoryError>)
        ensures
            match r {
                Ok(e) => self.cache_view().contains_key(id) && e@ == self.cache_view()[id],
                Err(err) => !self.cache_view().contains_key(id) && err == (MemoryError::NotFound { id }),
            },
    {
        match cache_get(&self.memory_cache, id) {
            Some(e) => Ok(e),
            None => Err(MemoryError::NotFound { id }),
        }
    }

    /// One eviction sweep: while more short-term entries are cached than
    /// the configured limit allows, the least important (and, among equals,
    /// least recently accessed) is removed from the cache.
    pub fn cleanup_short_term_memories(&mut self)
        requires
            old(self).wf(),
        ensures
            final(self).wf(),
            swept(old(self).cache_view(), final(self).cache_view(), old(self).config_view().short_term_limit as nat),
            final(self).config_view() == old(self).config_view(),
            final(self).emotion_view() == old(self).emotion_view(),
            final(self).user_view() == old(self).user_view(),
            final(self).index_view() == old(self).index_view(),
    {
        let limit = self.config.short_term_limit;
        let ghost c0 = self.cache_view();
        let ghost st = short_term_keys(c0);
        let mut cands = entries_of_type(&self.memory_cache, MemoryType::ShortTerm);
        let count = cands.len();
        proof {
            candidate_ids(cands@).unique_seq_to_set();
            assert(candidate_ids(cands@).len() == cands@.len());
        }
        if count <= limit {
            assert(c0.dom().difference(c0.dom()) =~= Set::empty());
            return;
        }
        let to_remove = count - limit;
        let mut removed_n: usize = 0;
        let ghost mut removed: Set<u128> = Set::empty();
        assert(c0.remove_keys(removed) =~= c0);
        while removed_n < to_remove
            invariant
                c0 == old(self).cache_view(),
                st == short_term_keys(c0),
                cache_wf(c0),
                st.len() == count,
                count == limit + to_remove,
                limit == self.config.short_term_limit,
                self.config == old(self).config,
                self.current_emotion == old(self).current_emotion,
                self.user_id == old(self).user_id,
                self.vector_store == old(self).vector_store,
                removed.finite(),
                removed.len() == removed_n,
                removed_n <= to_remove,
                removed_n + cands@.len() == count,
                removed.subset_of(st),
                forall|x: u128| candidate_ids(cands@).contains(x) <==> (st.contains(x) && !removed.contains(x)),
                candidate_ids(cands@).no_duplicates(),
                forall|i: int| 0 <= i < cands@.len() ==> {
                    &&& c0.contains_key((#[trigger] cands@[i]).0)
                    &&& cands@[i].1 == c0[cands@[i].0].importance
                    &&& cands@[i].2 == c0[cands@[i].0].last_accessed
                },
                self.cache_view() == c0.remove_keys(removed),
                forall|r: u128, i: int| #[trigger] removed.contains(r) && 0 <= i < cands@.len() ==> evicts_before(c0[r], c0[(#[trigger] cands@[i]).0]),
            decreases to_remove - removed_n,
        {
            let mut best: usize = 0;
            let mut j: usize = 1;
            while j < cands.len()
                invariant
                    0 <= best < j <= cands@.len(),
                    forall|k: int| 0 <= k < j ==> (cands@[best as int].1 < (#[trigger] cands@[k]).1
                        || (cands@[best as int].1 == cands@[k].1 && cands@[best as int].2 <= cands@[k].2)),
                decreases cands.len() - j,
            {
                if cands[j].1 < cands[best].1 || (cands[j].1 == cands[best].1 && cands[j].2 < cands[best].2) {
                    best = j;
                }
                j += 1;
            }
            let id = cands[best].0;
            let ghost prev = cands@;
            let ghost prev_removed = removed;
            proof {
                assert(candidate_ids(prev)[best as int] == id);
                assert(candidate_ids(prev).contains(id));
            }
            cache_remove(&mut self.memory_cache, id);
            cands.remove(best);
            removed_n += 1;
            proof {
                removed = removed.insert(id);
                assert(self.cache_view() =~= c0.remove_keys(removed));
                assert(candidate_ids(cands@) =~= candidate_ids(prev).remove(best as int));
                assert forall|x: u128| candidate_ids(cands@).contains(x) <==> (st.contains(x) && !removed.contains(x)) by {
                    if candidate_ids(cands@).contains(x) {
                        let w = choose|w: int| 0 <= w < candidate_ids(cands@).len() && candidate_ids(cands@)[w] == x;
                        let w2 = if w < best { w } else { w + 1 };
                        assert(candidate_ids(prev)[w2] == x);
                        assert(w2 != best as int);
                        assert(x != id);
                    }
                    if st.contains(x) && !removed.contains(x) {
                        assert(candidate_ids(prev).contains(x));
                        let w = choose|w: int| 0 <= w < candidate_ids(prev).len() && candidate_ids(prev)[w] == x;
                        assert(w != best as int);
                        let w2 = if w < best { w } else { w - 1 };
                        assert(candidate_ids(cands@)[w2] == x);
                    }
                }
                assert forall|r: u128, i: int| #[trigger] removed.contains(r) && 0 <= i < cands@.len() implies evicts_before(c0[r], c0[(#[trigger] cands@[i]).0]) by {
                    let i2 = if i < best { i } else { i + 1 };
                    assert(cands@[i] == prev[i2]);
                    if r == id {
                        assert(prev[best as int].1 < prev[i2].1 || (prev[best as int].1 == prev[i2].1 && prev[best as int].2 <= prev[i2].2));
                    } else {
                        assert(prev_removed.contains(r));
                    }
                }
            }
        }
        proof {
            let after = self.cache_view();
            assert(after.dom() =~= c0.dom().difference(removed));
            assert(after.dom().finite());
            assert(c0.dom().difference(after.dom()) =~= removed);
            assert forall|k: u128| #[trigger] after.contains_key(k) implies after[k] == c0[k] && after[k].id == k && after[k].wf() by {}
            assert forall|r: u128, s: u128| #[trigger] removed.contains(r) && st.contains(s) && !removed.contains(s)
                implies evicts_before(c0[r], #[trigger] c0[s]) by {
                assert(candidate_ids(cands@).contains(s));
                let w = choose|w: int| 0 <= w < candidate_ids(cands@).len() && candidate_ids(cands@)[w] == s;
                assert(cands@[w].0 == s);
            }
        }
    }

    /// Adds a memory under `id`, created at time `now`. `embedding` is what
    /// the embedding provider returned for `content`: on failure the entry
    /// is still cached, without a vector; on success the vector is stored in
    /// the index under `id` first, and an index failure is returned as
    /// `VectorStoreError` with the cache unchanged. An `id` that is already
    /// cached is refused with `DatabaseError` before anything is stored. A
    /// short-term entry is followed by an eviction sweep.
    pub fn add_memory_with_id(
        &mut self,
        id: u128,
        now: i64,
        memory_type: MemoryType,
        content: String,
        keywords: Vec<String>,
        importance: i64,
        emotional_context: Option<EmotionalState>,
        embedding: Result<Vec<i16>, String>,
    ) -> (r: Result<u128, MemoryError>)
        requires
            old(self).wf(),
        ensures
            final(self).wf(),
            final(self).config_view() == old(self).config_view(),
            final(self).emotion_view() == old(self).emotion_view(),
            final(self).user_view() == old(self).user_view(),
            r matches Err(MemoryError::DatabaseError(_)) <==> old(self).cache_view().contains_key(id),
            embedding is Err && !old(self).cache_view().contains_key(id) ==> r is Ok,
            r is Ok ==> r == Ok::<u128, MemoryError>(id),
            r is Ok ==> cached_after_add(old(self).cache_view(), final(self).cache_view(), old(self).config_view().short_term_limit as nat,
                new_entry_view(id, now, memory_type, content@, crate::types::strings_view(keywords@), importance as int,
                    crate::types::context_view(emotional_context), embedding_of(embedding))),
            r is Ok ==> match embedding {
                Ok(v) => old(self).index_view().stores(final(self).index_view(), id, v@),
                Err(_) => final(self).index_view() == old(self).index_view(),
            },
            r is Err ==> final(self).cache_view() == old(self).cache_view(),
            r matches Err(MemoryError::VectorStoreError { message }) ==> embedding matches Ok(v)
                && old(self).index_view().store_fails(final(self).index_view(), id, v@, message@),
            r matches Err(MemoryError::DatabaseError(m)) ==> m@ == "identifier already in use"@
                && final(self).index_view() == old(self).index_view(),
            r matches Err(err) ==> err is VectorStoreError || err is DatabaseError,
    {
        if cache_get(&self.memory_cache, id).is_some() {
            return Err(MemoryError::DatabaseError(String::from_str("identifier already in use")));
        }
        let mut entry = MemoryEntry::new_at(id, now, memory_type, content, keywords, importance);
        entry.emotional_context = emotional_context;
        entry.importance = calculate_contextual_importance(entry.importance, &entry.emotional_context, memory_type);
        match embedding {
            Ok(v) => {
                let stored = crate::types::duplicate_vector(&v);
                entry.embedding = Some(v);
                match self.vector_store.store_vector(id, stored, &entry) {
                    Ok(()) => {},
                    Err(message) => {
                        let ghost m = message@;
                        let r: Result<u128, MemoryError> = Err(MemoryError::VectorStoreError { message });
                        assert(embedding is Ok);
                        assert(old(self).index_view().store_fails(self.index_view(), id, embedding->Ok_0@, m));
                        assert(r->Err_0->message@ == m);
                        return r;
                    },
                }
            },
            Err(_) => {},
        }
        let ghost e = entry@;
        assert(e == new_entry_view(id, now, memory_type, content@, crate::types::strings_view(keywords@), importance as int,
            crate::types::context_view(emotional_context), embedding_of(embedding)));
        cache_insert(&mut self.memory_cache, id, entry);
        assert(self.cache_view().dom() =~= old(self).cache_view().dom().insert(id));
        if memory_type == MemoryType::ShortTerm {
            self.cleanup_short_term_memories();
        }
        Ok(id)
    }

    /// Adds a memory under a fresh random id, created now; see
    /// `add_memory_with_id`, which this calls with the drawn id and time.
    pub fn add_memory(
        &mut self,
        memory_type: MemoryType,
        content: String,
        keywords: Vec<String>,
        importance: i64,
        emotional_context: Option<EmotionalState>,
        embedding: Result<Vec<i16>, String>,
    ) -> (r: Result<u128, MemoryError>)
        requires
            old(self).wf(),
        ensures
            final(self).wf(),
            final(self).config_view() == old(self).config_view(),
            final(self).emotion_view() == old(self).emotion_view(),
            final(self).user_view() == old(self).user_view(),
            embedding is Err ==> r is Ok || r matches Err(MemoryError::DatabaseError(_)),
            r matches Ok(id) ==> !old(self).cache_view().contains_key(id),
            r matches Ok(id) ==> match embedding {
                Ok(v) => old(self).index_view().stores(final(self).index_view(), id, v@),
                Err(_) => final(self).index_view() == old(self).index_view(),
            },
            r matches Ok(id) ==> exists|now: i64| cached_after_add(old(self).cache_view(), final(self).cache_view(),
                old(self).config_view().short_term_limit as nat,
                #[trigger] new_entry_view(id, now, memory_type, content@, crate::types::strings_view(keywords@), importance as int,
                    crate::types::context_view(emotional_context), embedding_of(embedding))),
            r is Err ==> final(self).cache_view() == old(self).cache_view(),
            r matches Err(MemoryError::VectorStoreError { message }) ==> embedding matches Ok(v)
                && exists|id: u128| !old(self).cache_view().contains_key(id)
                    && #[trigger] old(self).index_view().store_fails(final(self).index_view(), id, v@, message@),
            r matches Err(MemoryError::DatabaseError(m)) ==> m@ == "identifier already in use"@
                && exists|id: u128| #[trigger] old(self).cache_view().contains_key(id)
                && final(self).index_view() == old(self).index_view(),
            r matches Err(err) ==> err is VectorStoreError || err is DatabaseError,
    {
        let id = new_id();
        let now = now_millis();
        let r = self.add_memory_with_id(id, now, memory_type, content, keywords, importance, emotional_context, embedding);
        proof {
            if r is Ok {
                assert(cached_after_add(old(self).cache_view(), self.cache_view(), old(self).config_view().short_term_limit as nat,
                    new_entry_view(r->Ok_0, now, memory_type, content@, crate::types::strings_view(keywords@), importance as int,
                        crate::types::context_view(emotional_context), embedding_of(embedding))));
            }
        }
        r
    }

    /// Turns the ids that the index returned into the result of a
    /// retrieval at time `now`: ids are looked up in order, skipped when not
    /// cached (already evicted) or filtered out, marked accessed while fewer
    /// than `limit` entries are collected, and the collected entries are
    /// returned in retrieval order.
    pub fn rank_candidates(&mut self, ids: &Vec<u128>, memory_types: &Option<Vec<MemoryType>>, limit: usize, now: i64) -> (r: Vec<MemoryEntry>)
        requires
            old(self).wf(),
        ensures
            final(self).wf(),
            final(self).cache_view() == hydrate(ids@, old(self).cache_view(), filter_view(*memory_types), limit as nat, now).0,
            ranked(entries_view(r@)),
            entries_view(r@).to_multiset() == hydrate(ids@, old(self).cache_view(), filter_view(*memory_types), limit as nat, now).1.to_multiset(),
            ids@.no_duplicates() ==> entry_ids(hydrate(ids@, old(self).cache_view(), filter_view(*memory_types), limit as nat, now).1).no_duplicates(),
            final(self).config_view() == old(self).config_view(),
            final(self).emotion_view() == old(self).emotion_view(),
            final(self).user_view() == old(self).user_view(),
            final(self).index_view() == old(self).index_view(),
    {
        let ghost c0 = self.cache_view();
        let ghost filter = filter_view(*memory_types);
        let mut memories: Vec<MemoryEntry> = Vec::new();
        let mut i: usize = 0;
        while i < ids.len()
            invariant
                i <= ids@.len(),
                c0 == old(self).cache_view(),
                filter == filter_view(*memory_types),
                self.config == old(self).config,
                self.current_emotion == old(self).current_emotion,
                self.user_id == old(self).user_id,
                self.vector_store == old(self).vector_store,
                cache_wf(self.cache_view()),
                (self.cache_view(), entries_view(memories@)) == hydrate(ids@.take(i as int), c0, filter, limit as nat, now),
            decreases ids.len() - i,
        {
            proof {
                assert(ids@.take(i + 1).drop_last() =~= ids@.take(i as int));
                assert(ids@.take(i + 1).last() == ids@[i as int]);
            }
            let id = ids[i];
            if memories.len() < limit {
                match cache_get(&self.memory_cache, id) {
                    Some(mut entry) => {
                        let keep = match memory_types {
                            Some(types) => contains_type(types, entry.memory_type),
                            None => true,
                        };
                        if keep {
                            let ghost prev = entries_view(memories@);
                            entry.mark_accessed_at(now);
                            let copy = entry.duplicate();
                            cache_insert(&mut self.memory_cache, id, copy);
                            memories.push(entry);
                            proof {
                                assert(entries_view(memories@) =~= prev.push(entry@));
                                assert(self.cache_view().dom() =~= self.cache_view().dom().insert(id));
                            }
                        }
                    },
                    None => {},
                }
            }
            i += 1;
        }
        proof {
            assert(ids@.take(ids@.len() as int) =~= ids@);
            lemma_hydrate_ids(ids@, c0, filter, limit as nat, now);
        }
        rank_entries(memories)
    }

    /// Retrieves the entries most relevant to a query. `query_embedding` is
    /// what the embedding provider returned for the query: a failure ends
    /// the call with `DatabaseError`. The index is asked for up to twice
    /// `limit` (default 10) ids at the configured similarity threshold; an
    /// index failure ends the call with `VectorStoreError`. The ids are then
    /// ranked by `rank_candidates` at the current time.
    pub fn retrieve_memories(
        &mut self,
        query_embedding: Result<Vec<i16>, String>,
        memory_types: Option<Vec<MemoryType>>,
        limit: Option<usize>,
    ) -> (r: Result<Vec<MemoryEntry>, MemoryError>)
        requires
            old(self).wf(),
        ensures
            final(self).wf(),
            final(self).config_view() == old(self).config_view(),
            final(self).emotion_view() == old(self).emotion_view(),
            final(self).user_view() == old(self).user_view(),
            final(self).index_view() == old(self).index_view(),
            query_embedding matches Err(message) ==> r == Err::<Vec<MemoryEntry>, MemoryError>(MemoryError::DatabaseError(message)),
            r is Err ==> final(self).cache_view() == old(self).cache_view(),
            r matches Err(e) ==> e is DatabaseError || e is VectorStoreError,
            r matches Err(MemoryError::DatabaseError(_)) ==> query_embedding is Err,
            r matches Err(MemoryError::VectorStoreError { message }) ==> query_embedding matches Ok(q)
                && old(self).index_view().search_fails(q@, candidate_count(limit), old(self).config_view().similarity_threshold, message@),
            r matches Ok(v) ==> query_embedding matches Ok(q) && exists|ids: Seq<u128>, now: i64| {
                let h = #[trigger] hydrate(ids, old(self).cache_view(), filter_view(memory_types), limit_or_default(limit), now);
                &&& old(self).index_view().search_answer(q@, candidate_count(limit), old(self).config_view().similarity_threshold, ids)
                &&& ids.len() <= candidate_count(limit)
                &&& ids.no_duplicates()
                &&& final(self).cache_view() == h.0
                &&& ranked(entries_view(v@))
                &&& entries_view(v@).to_multiset() == h.1.to_multiset()
                &&& entry_ids(h.1).no_duplicates()
            },
    {
        let max = match limit {
            Some(l) => l,
            None => 10,
        };
        assert(limit_or_default(limit) == max as nat);
        let query = match query_embedding {
            Ok(v) => v,
            Err(message) => {
                return Err(MemoryError::DatabaseError(message));
            },
        };
        let candidates = if max <= usize::MAX / 2 { max * 2 } else { usize::MAX };
        let ids = match self.vector_store.search_similar(&query, candidates, self.config.similarity_threshold) {
            Ok(ids) => ids,
            Err(message) => {
                return Err(MemoryError::VectorStoreError { message });
            },
        };
        assert(candidates as nat == candidate_count(limit));
        let now = now_millis();
        let memories = self.rank_candidates(&ids, &memory_types, max, now);
        assert(self.cache_view() == hydrate(ids@, old(self).cache_view(), filter_view(memory_types), limit_or_default(limit), now).0);
        Ok(memories)
    }

    /// The number of cached entries of each type present, then the total.
    pub fn get_memory_stats(&self) -> (r: Vec<(String, u64)>)
        requires
            self.wf(),
        ensures
            stat_pairs(r@) == stats_view(self.cache_view()),
    {
        let mut out: Vec<(String, u64)> = Vec::new();
        assert(stat_pairs(out@) =~= Seq::empty());
        push_stat_line(&self.memory_cache, MemoryType::ShortTerm, &mut out);
        push_stat_line(&self.memory_cache, MemoryType::LongTerm, &mut out);
        push_stat_line(&self.memory_cache, MemoryType::Emotional, &mut out);
        push_stat_line(&self.memory_cache, MemoryType::Preference, &mut out);
        push_stat_line(&self.memory_cache, MemoryType::Relationship, &mut out);
        let snap = cache_snapshot(&self.memory_cache);
        proof {
            let keys = snap@.map_values(|p: (u128, MemoryEntry)| p.0);
            keys.unique_seq_to_set();
        }
        let ghost prev = stat_pairs(out@);
        out.push((String::from_str("total"), snap.len() as u64));
        assert(stat_pairs(out@) =~= prev + seq![("total"@, self.cache_view().dom().len() as u64)]);
        assert(stat_pairs(out@) =~= stats_view(self.cache_view()));
        out
    }
}

} // verus!
