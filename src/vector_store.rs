//! The vector index the memory store relies on, and an in-process index
//! that ranks stored vectors by exact cosine similarity.
use vstd::prelude::*;
use crate::types::MemoryEntry;
use crate::level::LEVEL_ONE;

verus! {

/// What the memory store needs of a vector index. Errors are described by
/// a message. Each implementation says, through the spec functions, what
/// its operations do.
pub trait VectorStore: Sized {
    /// `ids` is a correct answer of this index to a search with `query`.
    open spec fn search_answer(&self, query: Seq<i16>, limit: nat, threshold: u32, ids: Seq<u128>) -> bool {
        true
    }

    /// A search with `query` may fail with `message`.
    open spec fn search_fails(&self, query: Seq<i16>, limit: nat, threshold: u32, message: Seq<char>) -> bool {
        true
    }

    /// `after` is this index once `v` is stored under `id`.
    open spec fn stores(&self, after: Self, id: u128, v: Seq<i16>) -> bool {
        true
    }

    /// Storing `v` under `id` may fail with `message`, leaving `after`.
    open spec fn store_fails(&self, after: Self, id: u128, v: Seq<i16>, message: Seq<char>) -> bool {
        true
    }

    /// `after` is this index once the vector under `id` is removed.
    open spec fn deletes(&self, after: Self, id: u128) -> bool {
        true
    }

    /// Removing the vector under `id` may fail with `message`, leaving `after`.
    open spec fn delete_fails(&self, after: Self, id: u128, message: Seq<char>) -> bool {
        true
    }

    /// `stats` are the named counts of this index.
    open spec fn stats_answer(&self, stats: Seq<(Seq<char>, u64)>) -> bool {
        true
    }

    /// Reading the counts may fail with `message`.
    open spec fn stats_fails(&self, message: Seq<char>) -> bool {
        true
    }

    /// Stores `embedding` under `id`, with the entry as its payload.
    fn store_vector(&mut self, id: u128, embedding: Vec<i16>, entry: &MemoryEntry) -> (r: Result<(), String>)
        ensures
            r is Ok ==> old(self).stores(*final(self), id, embedding@),
            r matches Err(m) ==> old(self).store_fails(*final(self), id, embedding@, m@),
    ;

    /// Ids of at most `limit` stored vectors whose similarity to the query
    /// reaches `threshold` (a level), most similar first, each once.
    fn search_similar(&self, query_embedding: &Vec<i16>, limit: usize, threshold: u32) -> (r: Result<Vec<u128>, String>)
        ensures
            r matches Ok(ids) ==> {
                &&& ids@.len() <= limit
                &&& ids@.no_duplicates()
                &&& self.search_answer(query_embedding@, limit as nat, threshold, ids@)
            },
            r matches Err(m) ==> self.search_fails(query_embedding@, limit as nat, threshold, m@),
    ;

    /// Removes the vector stored under `id`.
    fn delete_vector(&mut self, id: u128) -> (r: Result<(), String>)
        ensures
            r is Ok ==> old(self).deletes(*final(self), id),
            r matches Err(m) ==> old(self).delete_fails(*final(self), id, m@),
    ;

    /// Named counts describing the index.
    fn get_stats(&self) -> (r: Result<Vec<(String, u64)>, String>)
        ensures
            r matches Ok(s) ==> self.stats_answer(stat_pairs(s@)),
            r matches Err(m) ==> self.stats_fails(m@),
    ;
}

/// The value of a list of named counts.
pub open spec fn stat_pairs(v: Seq<(String, u64)>) -> Seq<(Seq<char>, u64)> {
    v.map_values(|p: (String, u64)| (p.0@, p.1))
}

/// Longest vector the in-process index accepts (2^23 components). With
/// `i16` components a dot product stays below 2^53, so the exact score
/// arithmetic (a squared dot product times `SCORE_ONE`) stays below 2^127.
pub const MAX_DIMENSION: usize = 8388608;

/// The score of two parallel vectors: scores are squared cosine
/// similarities, signed, in millionths.
pub const SCORE_ONE: i128 = 1000000;

/// Sum of the products of the first `n` components.
pub open spec fn dot(a: Seq<i16>, b: Seq<i16>, n: int) -> int
    decreases n,
{
    if n <= 0 {
        0
    } else {
        dot(a, b, n - 1) + a[n - 1] * b[n - 1]
    }
}

/// The similarity score of `v` to query `q`: the cosine similarity `c`
/// as `c * |c| * SCORE_ONE`, rounded toward zero; zero when the lengths
/// differ or either vector is zero.
pub open spec fn score(q: Seq<i16>, v: Seq<i16>) -> int {
    let n = q.len() as int;
    let qq = dot(q, q, n);
    let vv = dot(v, v, n);
    if q.len() != v.len() || qq == 0 || vv == 0 {
        0
    } else {
        let d = dot(q, v, n);
        let num = if d >= 0 { d * d * SCORE_ONE } else { -(d * d * SCORE_ONE) };
        if num >= 0 {
            num / (qq * vv)
        } else {
            -((-num) / (qq * vv))
        }
    }
}

/// The least score that meets a similarity threshold (a level).
pub open spec fn threshold_score(threshold: int) -> int {
    threshold * threshold
}

/// `id` is stored in `entries`.
pub open spec fn has_id(entries: Seq<(u128, Seq<i16>)>, id: u128) -> bool {
    exists|i: int| 0 <= i < entries.len() && entries[i].0 == id
}

/// A position where `id` is stored, if it is.
pub open spec fn index_of(entries: Seq<(u128, Seq<i16>)>, id: u128) -> int {
    choose|i: int| 0 <= i < entries.len() && entries[i].0 == id
}

/// The vector stored under `id`.
pub open spec fn vector_of(entries: Seq<(u128, Seq<i16>)>, id: u128) -> Seq<i16> {
    entries[index_of(entries, id)].1
}

/// No id is stored twice.
pub open spec fn unique_ids(entries: Seq<(u128, Seq<i16>)>) -> bool {
    forall|i: int, j: int| 0 <= i < j < entries.len() ==> entries[i].0 != entries[j].0
}

/// `ids` is a correct answer to a search of `entries`: at most `limit`
/// distinct stored ids, each meeting the threshold, in non-increasing order
/// of score; a qualifying id is left out only when the answer is full and
/// every id in it scores at least as high.
pub open spec fn search_ok(entries: Seq<(u128, Seq<i16>)>, q: Seq<i16>, limit: int, threshold: int, ids: Seq<u128>) -> bool {
    &&& ids.len() <= limit
    &&& ids.no_duplicates()
    &&& forall|i: int| 0 <= i < ids.len() ==> has_id(entries, #[trigger] ids[i])
    &&& forall|i: int| 0 <= i < ids.len() ==> score(q, vector_of(entries, #[trigger] ids[i])) >= threshold_score(threshold)
    &&& forall|i: int, j: int| 0 <= i < j < ids.len() ==>
        score(q, vector_of(entries, #[trigger] ids[i])) >= score(q, vector_of(entries, #[trigger] ids[j]))
    &&& forall|k: int| 0 <= k < entries.len() && score(q, entries[k].1) >= threshold_score(threshold)
        && !ids.contains(#[trigger] entries[k].0) ==> {
            &&& ids.len() == limit
            &&& forall|i: int| 0 <= i < ids.len() ==> score(q, vector_of(entries, #[trigger] ids[i])) >= score(q, entries[k].1)
        }
}

/// With unique ids, the vector found for a stored id is the one stored
/// with it.
pub proof fn lemma_vector_of(entries: Seq<(u128, Seq<i16>)>, k: int)
    requires
        unique_ids(entries),
        0 <= k < entries.len(),
    ensures
        has_id(entries, entries[k].0),
        vector_of(entries, entries[k].0) == entries[k].1,
{
    let id = entries[k].0;
    assert(0 <= k < entries.len() && entries[k].0 == id);
    let i = index_of(entries, id);
    if i != k {
        if i < k {
            assert(entries[i].0 != entries[k].0);
        } else {
            assert(entries[k].0 != entries[i].0);
        }
    }
}

/// Bound on the partial dot products of short vectors of `i16`.
proof fn lemma_dot_bound(a: Seq<i16>, b: Seq<i16>, n: int)
    requires
        0 <= n <= a.len(),
        n <= b.len(),
    ensures
        -n * 0x4000_0000 <= dot(a, b, n) <= n * 0x4000_0000,
    decreases n,
{
    if n > 0 {
        lemma_dot_bound(a, b, n - 1);
        let x = a[n - 1] as int;
        let y = b[n - 1] as int;
        assert(-0x4000_0000 <= x * y <= 0x4000_0000) by (nonlinear_arith)
            requires -0x8000 <= x <= 0x7fff, -0x8000 <= y <= 0x7fff;
    }
}

/// A vector's dot product with itself is not negative.
proof fn lemma_dot_self_nonneg(a: Seq<i16>, n: int)
    ensures
        dot(a, a, n) >= 0,
    decreases n,
{
    if n > 0 {
        lemma_dot_self_nonneg(a, n - 1);
        let x = a[n - 1] as int;
        assert(x * x >= 0) by (nonlinear_arith);
    }
}

/// The dot product of two vectors of the same length, at most
/// `MAX_DIMENSION` long.
fn dot_product(a: &Vec<i16>, b: &Vec<i16>) -> (r: i128)
    requires
        a@.len() == b@.len(),
        a@.len() <= MAX_DIMENSION,
    ensures
        r as int == dot(a@, b@, a@.len() as int),
        -(MAX_DIMENSION as int) * 0x4000_0000 <= r <= (MAX_DIMENSION as int) * 0x4000_0000,
{
    let mut sum: i128 = 0;
    let mut i: usize = 0;
    while i < a.len()
        invariant
            a@.len() == b@.len(),
            a@.len() <= MAX_DIMENSION,
            i <= a@.len(),
            sum as int == dot(a@, b@, i as int),
        decreases a.len() - i,
    {
        proof {
            lemma_dot_bound(a@, b@, i + 1);
            assert((i + 1) * 0x4000_0000 <= 8388609 * 0x4000_0000) by (nonlinear_arith)
                requires i + 1 <= 8388609;
        }
        let x = a[i] as i128;
        let y = b[i] as i128;
        assert(-0x4000_0000 <= x * y <= 0x4000_0000) by (nonlinear_arith)
            requires -0x8000 <= x <= 0x7fff, -0x8000 <= y <= 0x7fff;
        assert(dot(a@, b@, i + 1) == dot(a@, b@, i as int) + x * y);
        sum = sum + x * y;
        i += 1;
    }
    proof {
        let n = a@.len() as int;
        lemma_dot_bound(a@, b@, n);
        assert(n * 0x4000_0000 <= 8388608 * 0x4000_0000) by (nonlinear_arith)
            requires 0 <= n <= 8388608;
    }
    sum
}

/// The similarity score of `v` to the query `q`.
pub fn similarity_score(q: &Vec<i16>, v: &Vec<i16>) -> (r: i128)
    requires
        v@.len() <= MAX_DIMENSION,
    ensures
        r as int == score(q@, v@),
{
    if q.len() != v.len() {
        return 0;
    }
    let qq = dot_product(q, q);
    let vv = dot_product(v, v);
    proof {
        lemma_dot_self_nonneg(q@, q@.len() as int);
        lemma_dot_self_nonneg(v@, v@.len() as int);
    }
    if qq == 0 || vv == 0 {
        return 0;
    }
    let d = dot_product(q, v);
    let bound: i128 = 0x20_0000_0000_0000;
    assert(-bound <= d <= bound);
    assert(d * d <= bound * bound) by (nonlinear_arith)
        requires -bound <= d <= bound;
    assert(0 <= d * d) by (nonlinear_arith);
    let sq: i128 = d * d;
    assert(sq * SCORE_ONE <= bound * bound * SCORE_ONE) by (nonlinear_arith)
        requires 0 <= sq <= bound * bound;
    let num: i128 = if d >= 0 { sq * SCORE_ONE } else { -(sq * SCORE_ONE) };
    assert(0 < qq <= bound);
    assert(0 < vv <= bound);
    assert(0 < qq * vv <= bound * bound) by (nonlinear_arith)
        requires 0 < qq <= bound, 0 < vv <= bound;
    let den: i128 = qq * vv;
    if num >= 0 {
        num / den
    } else {
        -((-num) / den)
    }
}


/// The view of stored `(id, vector)` pairs.
pub open spec fn entries_seq(entries: Seq<(u128, Vec<i16>)>) -> Seq<(u128, Seq<i16>)> {
    entries.map_values(|e: (u128, Vec<i16>)| (e.0, e.1@))
}

/// Every stored vector has the length of the first, at most `MAX_DIMENSION`.
pub open spec fn uniform_dimension(entries: Seq<(u128, Seq<i16>)>) -> bool {
    forall|i: int| 0 <= i < entries.len() ==> {
        &&& (#[trigger] entries[i]).1.len() <= MAX_DIMENSION
        &&& entries[i].1.len() == entries[0].1.len()
    }
}

/// Reasons the in-process index refuses an operation.
#[derive(Debug)]
pub enum MockError {
    /// No vector is stored under this id.
    NotFound { id: u128 },
    /// The operation cannot be carried out.
    OperationFailed { message: String },
}

impl MockError {
    /// A description of the failure.
    pub fn message(&self) -> (r: String)
        ensures
            r@ == match self {
                MockError::NotFound { .. } => "vector not found"@,
                MockError::OperationFailed { message } => message@,
            },
    {
        match self {
            MockError::NotFound { .. } => String::from_str("vector not found"),
            MockError::OperationFailed { message } => message.clone(),
        }
    }
}

/// An in-process vector index: exact cosine ranking over every stored
/// vector, in the order of first storage.
#[derive(Debug)]
pub struct MockVectorStore {
    entries: Vec<(u128, Vec<i16>)>,
}

/// `dim` is acceptable for a vector added to `entries`.
pub open spec fn dimension_fits(entries: Seq<(u128, Seq<i16>)>, dim: int) -> bool {
    &&& dim <= MAX_DIMENSION
    &&& (entries.len() > 0 ==> dim == entries[0].1.len())
}

/// The stored pairs after storing `v` under `id`: replaced in place if `id`
/// is present, appended otherwise.
pub open spec fn stored(entries: Seq<(u128, Seq<i16>)>, id: u128, v: Seq<i16>) -> Seq<(u128, Seq<i16>)> {
    if has_id(entries, id) {
        entries.update(index_of(entries, id), (id, v))
    } else {
        entries.push((id, v))
    }
}

impl MockVectorStore {
    #[verifier::type_invariant]
    spec fn well_formed(self) -> bool {
        &&& unique_ids(entries_seq(self.entries@))
        &&& uniform_dimension(entries_seq(self.entries@))
    }

    /// The stored `(id, vector)` pairs.
    pub closed spec fn entries_view(&self) -> Seq<(u128, Seq<i16>)> {
        entries_seq(self.entries@)
    }

    /// An empty index.
    pub fn new() -> (r: MockVectorStore)
        ensures
            r.entries_view().len() == 0,
    {
        let r = MockVectorStore { entries: Vec::new() };
        assert(entries_seq(r.entries@) =~= Seq::empty());
        r
    }

    /// Position of `id`, if stored.
    fn find(&self, id: u128) -> (r: Option<usize>)
        ensures
            match r {
                Some(i) => i < self.entries_view().len() && self.entries_view()[i as int].0 == id,
                None => !has_id(self.entries_view(), id),
            },
    {
        let mut i: usize = 0;
        while i < self.entries.len()
            invariant
                i <= self.entries.len(),
                forall|k: int| 0 <= k < i ==> self.entries_view()[k].0 != id,
            decreases self.entries.len() - i,
        {
            if self.entries[i].0 == id {
                return Some(i);
            }
            i += 1;
        }
        None
    }

    /// Stores `embedding` under `id`; refused when its length differs from
    /// that of the vectors already stored or exceeds `MAX_DIMENSION`.
    pub fn store(&mut self, id: u128, embedding: Vec<i16>) -> (r: Result<(), MockError>)
        ensures
            r is Ok <==> dimension_fits(old(self).entries_view(), embedding@.len() as int),
            r is Ok ==> final(self).entries_view() == stored(old(self).entries_view(), id, embedding@),
            r is Err ==> final(self).entries_view() == old(self).entries_view(),
            r matches Err(e) ==> (e matches MockError::OperationFailed { message } && message@ == "vector dimension mismatch"@),
            unique_ids(final(self).entries_view()),
    {
        proof {
            use_type_invariant(&*self);
        }
        let ghost e = self.entries_view();
        if embedding.len() > MAX_DIMENSION || (self.entries.len() > 0 && embedding.len() != self.entries[0].1.len()) {
            return Err(MockError::OperationFailed { message: String::from_str("vector dimension mismatch") });
        }
        match self.find(id) {
            Some(i) => {
                let ghost j = index_of(e, id);
                proof {
                    if j != i {
                        if j < i {
                            assert(e[j].0 != e[i as int].0);
                        } else {
                            assert(e[i as int].0 != e[j].0);
                        }
                    }
                }
                let ghost ev = embedding@;
                let mut entries: Vec<(u128, Vec<i16>)> = Vec::new();
                std::mem::swap(&mut entries, &mut self.entries);
                entries.set(i, (id, embedding));
                assert(entries_seq(entries@) =~= e.update(i as int, (id, ev)));
                self.entries = entries;
            },
            None => {
                let ghost ev = embedding@;
                let mut entries: Vec<(u128, Vec<i16>)> = Vec::new();
                std::mem::swap(&mut entries, &mut self.entries);
                entries.push((id, embedding));
                assert(entries_seq(entries@) =~= e.push((id, ev)));
                self.entries = entries;
            },
        }
        proof {
            use_type_invariant(&*self);
        }
        Ok(())
    }

    /// Scores of every stored vector against the query, in storage order.
    fn all_scores(&self, query: &Vec<i16>) -> (r: Vec<i128>)
        ensures
            r@.len() == self.entries_view().len(),
            forall|k: int| 0 <= k < r@.len() ==> r@[k] == score(query@, #[trigger] self.entries_view()[k].1),
    {
        proof {
            use_type_invariant(self);
        }
        let mut scores: Vec<i128> = Vec::new();
        let mut i: usize = 0;
        while i < self.entries.len()
            invariant
                i <= self.entries.len(),
                scores@.len() == i,
                uniform_dimension(self.entries_view()),
                forall|k: int| 0 <= k < i ==> scores@[k] == score(query@, #[trigger] self.entries_view()[k].1),
            decreases self.entries.len() - i,
        {
            assert(self.entries_view()[i as int].1 == self.entries@[i as int].1@);
            scores.push(similarity_score(query, &self.entries[i].1));
            i += 1;
        }
        scores
    }

    /// Ids of at most `limit` stored vectors whose similarity to the query
    /// reaches `threshold`, most similar first. The order among equal
    /// scores is left open by the contract.
    pub fn search(&self, query: &Vec<i16>, limit: usize, threshold: u32) -> (r: Vec<u128>)
        ensures
            search_ok(self.entries_view(), query@, limit as int, threshold as int, r@),
    {
        proof {
            use_type_invariant(self);
        }
        let ghost e = self.entries_view();
        let n = self.entries.len();
        assert(0 <= threshold as int * threshold as int <= 0xffff_ffff * 0xffff_ffff) by (nonlinear_arith)
            requires 0 <= threshold <= 0xffff_ffff;
        let key: i128 = threshold as i128 * threshold as i128;
        let scores = self.all_scores(query);
        let mut taken: Vec<bool> = Vec::new();
        while taken.len() < n
            invariant
                taken@.len() <= n,
                forall|k: int| 0 <= k < taken@.len() ==> !taken@[k],
            decreases n - taken.len(),
        {
            taken.push(false);
        }
        let mut ids: Vec<u128> = Vec::new();
        let ghost mut chosen: Seq<int> = Seq::empty();
        let mut done = false;
        while !done && ids.len() < limit
            invariant
                e == self.entries_view(),
                n == e.len(),
                unique_ids(e),
                key == threshold_score(threshold as int),
                scores@.len() == n,
                taken@.len() == n,
                forall|k: int| 0 <= k < n ==> scores@[k] == score(query@, #[trigger] e[k].1),
                ids@.len() == chosen.len(),
                ids@.len() <= limit,
                ids@.no_duplicates(),
                forall|i: int| 0 <= i < chosen.len() ==> {
                    &&& 0 <= #[trigger] chosen[i] < n
                    &&& ids@[i] == e[chosen[i]].0
                    &&& scores@[chosen[i]] >= key
                },
                forall|k: int| 0 <= k < n ==> (#[trigger] taken@[k] <==> chosen.contains(k)),
                forall|i: int, j: int| 0 <= i < j < chosen.len() ==> scores@[#[trigger] chosen[i]] >= scores@[#[trigger] chosen[j]],
                forall|k: int, i: int| 0 <= k < n && !taken@[k] && scores@[k] >= key && 0 <= i < chosen.len()
                    ==> scores@[#[trigger] chosen[i]] >= #[trigger] scores@[k],
                done ==> forall|k: int| 0 <= k < n && !(#[trigger] taken@[k]) ==> scores@[k] < key,
            decreases limit - ids.len(), if done { 0int } else { 1int },
        {
            let mut best: usize = n;
            let mut j: usize = 0;
            while j < n
                invariant
                    n == taken@.len(),
                    n == scores@.len(),
                    j <= n,
                    best == n || (best < j && !taken@[best as int] && scores@[best as int] >= key),
                    best < n ==> forall|k: int| 0 <= k < j && !taken@[k] && scores@[k] >= key ==> scores@[best as int] >= #[trigger] scores@[k],
                    best == n ==> forall|k: int| 0 <= k < j && !(#[trigger] taken@[k]) ==> scores@[k] < key,
                decreases n - j,
            {
                if !taken[j] && scores[j] >= key && (best == n || scores[j] > scores[best]) {
                    best = j;
                }
                j += 1;
            }
            if best == n {
                done = true;
            } else {
                let ghost old_ids = ids@;
                let id = self.entries[best].0;
                assert(id == e[best as int].0);
                proof {
                    assert forall|i: int| 0 <= i < old_ids.len() implies old_ids[i] != id by {
                        let c = chosen[i];
                        assert(c != best as int) by {
                            assert(!taken@[best as int]);
                            if c == best as int {
                                assert(chosen.contains(c));
                            }
                        };
                        if c < best as int {
                            assert(e[c].0 != e[best as int].0);
                        } else {
                            assert(e[best as int].0 != e[c].0);
                        }
                    }
                }
                let ghost old_taken = taken@;
                let ghost old_chosen = chosen;
                taken.set(best, true);
                ids.push(id);
                proof {
                    chosen = chosen.push(best as int);
                    assert forall|k: int| 0 <= k < n implies (#[trigger] taken@[k] <==> chosen.contains(k)) by {
                        if k == best as int {
                            assert(chosen[chosen.len() - 1] == k);
                        } else {
                            assert(taken@[k] == old_taken[k]);
                            if old_chosen.contains(k) {
                                let w = choose|w: int| 0 <= w < old_chosen.len() && old_chosen[w] == k;
                                assert(chosen[w] == k);
                            }
                            if chosen.contains(k) {
                                let w = choose|w: int| 0 <= w < chosen.len() && chosen[w] == k;
                                assert(w < old_chosen.len());
                                assert(old_chosen[w] == k);
                            }
                        }
                    }
                }
            }
        }
        proof {
            assert forall|i: int| 0 <= i < ids@.len() implies has_id(e, #[trigger] ids@[i])
                && vector_of(e, ids@[i]) == e[chosen[i]].1 by {
                lemma_vector_of(e, chosen[i]);
            }
            assert forall|k: int| 0 <= k < e.len() && score(query@, e[k].1) >= threshold_score(threshold as int)
                && !ids@.contains(#[trigger] e[k].0) implies ids@.len() == limit by {
                if !taken@[k] {
                    assert(scores@[k] == score(query@, e[k].1));
                } else {
                    assert(chosen.contains(k));
                    let w = choose|w: int| 0 <= w < chosen.len() && chosen[w] == k;
                    assert(ids@[w] == e[k].0);
                }
            }
            assert forall|k: int, i: int| 0 <= k < e.len() && score(query@, e[k].1) >= threshold_score(threshold as int)
                && !ids@.contains(e[k].0) && 0 <= i < ids@.len()
                implies score(query@, vector_of(e, #[trigger] ids@[i])) >= score(query@, #[trigger] e[k].1) by {
                assert(vector_of(e, ids@[i]) == e[chosen[i]].1);
                if taken@[k] {
                    assert(chosen.contains(k));
                    let w = choose|w: int| 0 <= w < chosen.len() && chosen[w] == k;
                    assert(ids@[w] == e[k].0);
                }
                assert(scores@[k] == score(query@, e[k].1));
                assert(scores@[chosen[i]] >= scores@[k]);
            }
            assert forall|i: int, j: int| 0 <= i < j < ids@.len() implies
                score(query@, vector_of(e, #[trigger] ids@[i])) >= score(query@, vector_of(e, #[trigger] ids@[j])) by {
                assert(vector_of(e, ids@[i]) == e[chosen[i]].1);
                assert(vector_of(e, ids@[j]) == e[chosen[j]].1);
                assert(scores@[chosen[i]] >= scores@[chosen[j]]);
            }
        }
        ids
    }

    /// Removes the vector stored under `id`.
    pub fn delete(&mut self, id: u128) -> (r: Result<(), MockError>)
        ensures
            r is Ok <==> has_id(old(self).entries_view(), id),
            r is Ok ==> exists|i: int| 0 <= i < old(self).entries_view().len()
                && old(self).entries_view()[i].0 == id
                && final(self).entries_view() == old(self).entries_view().remove(i),
            r is Err ==> final(self).entries_view() == old(self).entries_view()
                && r == Err::<(), MockError>(MockError::NotFound { id }),
    {
        proof {
            use_type_invariant(&*self);
        }
        let ghost e = self.entries_view();
        match self.find(id) {
            Some(i) => {
                let mut entries: Vec<(u128, Vec<i16>)> = Vec::new();
                std::mem::swap(&mut entries, &mut self.entries);
                entries.remove(i);
                assert(entries_seq(entries@) =~= e.remove(i as int));
                proof {
                    let f = e.remove(i as int);
                    assert forall|a: int, b: int| 0 <= a < b < f.len() implies f[a].0 != f[b].0 by {
                        let a2 = if a < i { a } else { a + 1 };
                        let b2 = if b < i { b } else { b + 1 };
                        assert(e[a2].0 != e[b2].0);
                    }
                    assert forall|a: int| 0 <= a < f.len() implies (#[trigger] f[a]).1.len() <= MAX_DIMENSION
                        && f[a].1.len() == f[0].1.len() by {
                        let a2 = if a < i { a } else { a + 1 };
                        let z = if 0 < i { 0int } else { 1int };
                        assert(e[a2].1.len() == e[0].1.len());
                        assert(e[z].1.len() == e[0].1.len());
                    }
                }
                self.entries = entries;
                Ok(())
            },
            None => Err(MockError::NotFound { id }),
        }
    }

    /// The number of stored vectors and their dimension (zero when empty).
    pub fn stats(&self) -> (r: Vec<(String, u64)>)
        ensures
            r@.len() == 2,
            r@[0].0@ == "total_vectors"@,
            r@[0].1 == self.entries_view().len(),
            r@[1].0@ == "total_dimensions"@,
            r@[1].1 == if self.entries_view().len() > 0 { self.entries_view()[0].1.len() } else { 0 },
    {
        let dims: u64 = if self.entries.len() > 0 {
            assert(self.entries_view()[0].1 == self.entries@[0].1@);
            self.entries[0].1.len() as u64
        } else {
            0
        };
        vec![
            (String::from_str("total_vectors"), self.entries.len() as u64),
            (String::from_str("total_dimensions"), dims),
        ]
    }
}


/// The counts the in-process index reports.
pub open spec fn mock_stats(entries: Seq<(u128, Seq<i16>)>) -> Seq<(Seq<char>, u64)> {
    seq![
        ("total_vectors"@, entries.len() as u64),
        ("total_dimensions"@, if entries.len() > 0 { entries[0].1.len() as u64 } else { 0u64 }),
    ]
}

impl VectorStore for MockVectorStore {
    open spec fn search_answer(&self, query: Seq<i16>, limit: nat, threshold: u32, ids: Seq<u128>) -> bool {
        search_ok(self.entries_view(), query, limit as int, threshold as int, ids)
    }

    open spec fn search_fails(&self, query: Seq<i16>, limit: nat, threshold: u32, message: Seq<char>) -> bool {
        false
    }

    open spec fn stores(&self, after: Self, id: u128, v: Seq<i16>) -> bool {
        &&& dimension_fits(self.entries_view(), v.len() as int)
        &&& after.entries_view() == stored(self.entries_view(), id, v)
    }

    open spec fn store_fails(&self, after: Self, id: u128, v: Seq<i16>, message: Seq<char>) -> bool {
        &&& !dimension_fits(self.entries_view(), v.len() as int)
        &&& message == "vector dimension mismatch"@
        &&& after.entries_view() == self.entries_view()
    }

    open spec fn deletes(&self, after: Self, id: u128) -> bool {
        exists|i: int| 0 <= i < self.entries_view().len() && self.entries_view()[i].0 == id
            && after.entries_view() == self.entries_view().remove(i)
    }

    open spec fn delete_fails(&self, after: Self, id: u128, message: Seq<char>) -> bool {
        &&& !has_id(self.entries_view(), id)
        &&& message == "vector not found"@
        &&& after.entries_view() == self.entries_view()
    }

    open spec fn stats_answer(&self, stats: Seq<(Seq<char>, u64)>) -> bool {
        stats == mock_stats(self.entries_view())
    }

    open spec fn stats_fails(&self, message: Seq<char>) -> bool {
        false
    }

    fn store_vector(&mut self, id: u128, embedding: Vec<i16>, entry: &MemoryEntry) -> (r: Result<(), String>) {
        match self.store(id, embedding) {
            Ok(()) => Ok(()),
            Err(e) => Err(e.message()),
        }
    }

    fn search_similar(&self, query_embedding: &Vec<i16>, limit: usize, threshold: u32) -> (r: Result<Vec<u128>, String>) {
        Ok(self.search(query_embedding, limit, threshold))
    }

    fn delete_vector(&mut self, id: u128) -> (r: Result<(), String>) {
        match self.delete(id) {
            Ok(()) => Ok(()),
            Err(e) => Err(e.message()),
        }
    }

    fn get_stats(&self) -> (r: Result<Vec<(String, u64)>, String>) {
        let s = self.stats();
        assert(stat_pairs(s@) =~= mock_stats(self.entries_view()));
        Ok(s)
    }
}

impl Default for MockVectorStore {
    fn default() -> (r: MockVectorStore)
        ensures
            r.entries_view().len() == 0,
    {
        MockVectorStore::new()
    }
}

/// Where `v` stands after being stored under `id`.
pub proof fn lemma_stored_position(entries: Seq<(u128, Seq<i16>)>, id: u128, v: Seq<i16>) -> (k: int)
    ensures
        0 <= k < stored(entries, id, v).len(),
        stored(entries, id, v)[k] == (id, v),
{
    if has_id(entries, id) {
        index_of(entries, id)
    } else {
        entries.len() as int
    }
}

/// A nonzero vector scores exactly `SCORE_ONE` against itself.
pub proof fn lemma_self_score(v: Seq<i16>)
    requires
        dot(v, v, v.len() as int) > 0,
    ensures
        score(v, v) == SCORE_ONE,
{
    let d = dot(v, v, v.len() as int);
    assert(d * d * SCORE_ONE / (d * d) == SCORE_ONE) by (nonlinear_arith)
        requires d > 0;
}

/// Round trip: once a nonzero vector `v` is stored under `id`, a search
/// with `v` itself at any threshold up to one gives an answer that scores
/// at least as high as `v` against itself at its head; when no other
/// stored vector scores that high, the answer starts with `id`.
pub proof fn lemma_round_trip(
    entries: Seq<(u128, Seq<i16>)>,
    id: u128,
    v: Seq<i16>,
    limit: int,
    threshold: int,
    ids: Seq<u128>,
)
    requires
        unique_ids(stored(entries, id, v)),
        dot(v, v, v.len() as int) > 0,
        limit > 0,
        0 <= threshold <= LEVEL_ONE as int,
        search_ok(stored(entries, id, v), v, limit, threshold, ids),
    ensures
        ids.len() > 0,
        score(v, vector_of(stored(entries, id, v), ids[0])) >= SCORE_ONE,
        (forall|k: int| 0 <= k < stored(entries, id, v).len() && (#[trigger] stored(entries, id, v)[k]).0 != id
            ==> score(v, stored(entries, id, v)[k].1) < SCORE_ONE) ==> ids[0] == id,
{
    let e = stored(entries, id, v);
    let k = lemma_stored_position(entries, id, v);
    lemma_vector_of(e, k);
    lemma_self_score(v);
    assert(threshold * threshold <= 1000 * 1000) by (nonlinear_arith)
        requires 0 <= threshold <= 1000;
    assert(score(v, e[k].1) >= threshold_score(threshold));
    if !ids.contains(e[k].0) {
        assert(ids.len() == limit);
        assert(score(v, vector_of(e, ids[0])) >= score(v, e[k].1));
    } else {
        let w = choose|w: int| 0 <= w < ids.len() && ids[w] == id;
        if w > 0 {
            assert(score(v, vector_of(e, ids[0])) >= score(v, vector_of(e, ids[w])));
        }
    }
    if forall|j: int| 0 <= j < e.len() && (#[trigger] e[j]).0 != id ==> score(v, e[j].1) < SCORE_ONE {
        let first = ids[0];
        assert(has_id(e, first));
        let j = choose|j: int| 0 <= j < e.len() && e[j].0 == first;
        lemma_vector_of(e, j);
        if first != id {
            assert(score(v, e[j].1) < SCORE_ONE);
        }
    }
}

/// Two to the 64th: point ids of the networked index are the upper half
/// of an entry id.
pub const POINT_SHIFT: u128 = 0x1_0000_0000_0000_0000;

/// The numeric point id under which the networked index keeps the vector
/// of entry `id`: the id's upper 64 bits.
pub fn point_id_of(id: u128) -> (r: u64)
    ensures
        r as int == id as int / POINT_SHIFT as int,
{
    (id / POINT_SHIFT) as u64
}

/// The entry id read back from a numeric point id: the point id as the
/// upper 64 bits, the lower ones zero.
pub fn id_of_point(point: u64) -> (r: u128)
    ensures
        r as int == point as int * POINT_SHIFT as int,
{
    point as u128 * POINT_SHIFT
}

/// The entry ids read back from the points a search returned: points
/// without a numeric id, and the zero point, are skipped.
pub open spec fn ids_of_points_spec(points: Seq<Option<u64>>) -> Seq<u128>
    decreases points.len(),
{
    if points.len() == 0 {
        Seq::empty()
    } else {
        let prev = ids_of_points_spec(points.drop_last());
        match points.last() {
            Some(p) if p != 0 => prev.push((p as int * POINT_SHIFT as int) as u128),
            _ => prev,
        }
    }
}

/// Reads back the entry ids of the points a search returned.
pub fn ids_of_points(points: &Vec<Option<u64>>) -> (r: Vec<u128>)
    ensures
        r@ == ids_of_points_spec(points@),
{
    let mut r: Vec<u128> = Vec::new();
    let mut i: usize = 0;
    while i < points.len()
        invariant
            i <= points@.len(),
            r@ == ids_of_points_spec(points@.take(i as int)),
        decreases points.len() - i,
    {
        proof {
            assert(points@.take(i + 1).drop_last() =~= points@.take(i as int));
            assert(points@.take(i + 1).last() == points@[i as int]);
        }
        match points[i] {
            Some(p) => {
                if p != 0 {
                    r.push(id_of_point(p));
                }
            },
            None => {},
        }
        i += 1;
    }
    assert(points@.take(points@.len() as int) =~= points@);
    r
}
} // verus!
