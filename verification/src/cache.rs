//! The analysis cache: memoizes sentence analyses keyed by (seed, video set,
//! sentence), and the byte-level framing of the analysis engine's output.
//!
//! A key that holds a successful result never changes and is never evicted.
//! An ambiguity outcome is deliberately not cached: the same sentence may
//! analyze cleanly later, once its prerequisites change. The engine itself
//! is an external process; this module only decides when it must run and
//! keeps what it returned.

use vstd::prelude::*;

use crate::data::{AnalysisId, AnalysisResult, Project};

verus! {

/// One memoized analysis: the key and the engine's successful result.
pub struct CacheEntry {
    pub key: AnalysisId,
    pub result: AnalysisResult,
}

/// The view of a key: its three strings.
pub open spec fn key_view(k: AnalysisId) -> (Seq<char>, Seq<char>, Seq<char>) {
    (k.0@, k.1@, k.2@)
}

/// Whether the cache holds the key `kv`.
pub open spec fn cache_has(s: Seq<CacheEntry>, kv: (Seq<char>, Seq<char>, Seq<char>)) -> bool {
    exists|i: int| 0 <= i < s.len() && key_view(s[i].key) == kv
}

/// The index of the entry for `kv` (meaningful when the keys are unique).
pub open spec fn cache_idx(s: Seq<CacheEntry>, kv: (Seq<char>, Seq<char>, Seq<char>)) -> int {
    choose|i: int| 0 <= i < s.len() && key_view(s[i].key) == kv
}

/// The result stored under `kv`.
pub open spec fn cache_at(
    s: Seq<CacheEntry>,
    kv: (Seq<char>, Seq<char>, Seq<char>),
) -> AnalysisResult {
    s[cache_idx(s, kv)].result
}

/// Each key appears at most once.
pub open spec fn cache_unique(s: Seq<CacheEntry>) -> bool {
    forall|i: int, j: int| 0 <= i < j < s.len() ==> key_view(s[i].key) != key_view(s[j].key)
}

/// What a store leaves behind: the cache unchanged when the key is already
/// held, else the cache extended by the new entry.
pub open spec fn cache_stored(s: Seq<CacheEntry>, e: CacheEntry) -> Seq<CacheEntry> {
    if cache_has(s, key_view(e.key)) {
        s
    } else {
        s.push(e)
    }
}

proof fn lemma_cache_idx(s: Seq<CacheEntry>, i: int)
    requires
        cache_unique(s),
        0 <= i < s.len(),
    ensures
        cache_has(s, key_view(s[i].key)),
        cache_idx(s, key_view(s[i].key)) == i,
{
    let kv = key_view(s[i].key);
    assert(cache_has(s, kv));
    let j = cache_idx(s, kv);
    if i != j {
        assert(false);
    }
}

/// Law: the cache is persistent. Storing an entry makes its key held, and
/// a key that is already held keeps exactly the result it had: no store
/// ever changes or evicts it. A key that was not held receives the stored
/// result. Together with [`AnalysisCache::lookup`], whose result is `None`
/// exactly when the key is not held, this makes every analysis after the
/// first successful one a cache hit: the engine runs only on a miss.
pub proof fn lemma_cache_persistent(s: Seq<CacheEntry>, e: CacheEntry)
    requires
        cache_unique(s),
    ensures
        cache_unique(cache_stored(s, e)),
        cache_has(cache_stored(s, e), key_view(e.key)),
        cache_has(s, key_view(e.key)) ==> cache_at(cache_stored(s, e), key_view(e.key))
            == cache_at(s, key_view(e.key)),
        !cache_has(s, key_view(e.key)) ==> cache_at(cache_stored(s, e), key_view(e.key))
            == e.result,
        forall|kv: (Seq<char>, Seq<char>, Seq<char>)|
            cache_has(s, kv) ==> (cache_has(cache_stored(s, e), kv) && cache_at(
                cache_stored(s, e),
                kv,
            ) == cache_at(s, kv)),
{
    let kv0 = key_view(e.key);
    if cache_has(s, kv0) {
        assert(cache_stored(s, e) == s);
    } else {
        let s2 = s.push(e);
        let n = s.len() as int;
        assert(s2[n] == e);
        assert forall|i: int, j: int| 0 <= i < j < s2.len() implies key_view(s2[i].key)
            != key_view(s2[j].key) by {
            if j < n {
                assert(s2[i] == s[i] && s2[j] == s[j]);
            } else {
                assert(s2[i] == s[i]);
                if key_view(s[i].key) == kv0 {
                    assert(cache_has(s, kv0));
                }
            }
        }
        lemma_cache_idx(s2, n);
        assert forall|kv: (Seq<char>, Seq<char>, Seq<char>)| cache_has(s, kv) implies (cache_has(
            s2,
            kv,
        ) && cache_at(s2, kv) == cache_at(s, kv)) by {
            let w = choose|w: int| 0 <= w < s.len() && key_view(s[w].key) == kv;
            assert(s2[w] == s[w]);
            assert(cache_has(s2, kv));
            lemma_cache_idx(s, w);
            lemma_cache_idx(s2, w);
        }
    }
}

/// Memoizes analyses for the lifetime of the process.
pub struct AnalysisCache {
    pub entries: Vec<CacheEntry>,
}

impl AnalysisCache {
    /// Each key is held at most once.
    pub open spec fn wf(self) -> bool {
        cache_unique(self.entries@)
    }

    pub fn new() -> (r: AnalysisCache)
        ensures
            r.wf(),
            r.entries@.len() == 0,
    {
        AnalysisCache { entries: Vec::new() }
    }

    /// The stored result for `key`, if this analysis already succeeded once.
    pub fn lookup(&self, key: &AnalysisId) -> (r: Option<&AnalysisResult>)
        requires
            self.wf(),
        ensures
            match r {
                Some(v) => cache_has(self.entries@, key_view(*key)) && *v == cache_at(
                    self.entries@,
                    key_view(*key),
                ),
                None => !cache_has(self.entries@, key_view(*key)),
            },
    {
        let mut i: usize = 0;
        while i < self.entries.len()
            invariant
                self.wf(),
                i <= self.entries@.len(),
                forall|j: int| 0 <= j < i ==> key_view(self.entries@[j].key) != key_view(*key),
            decreases self.entries@.len() - i,
        {
            if self.entries[i].key.key_eq(key) {
                proof {
                    lemma_cache_idx(self.entries@, i as int);
                }
                return Some(&self.entries[i].result);
            }
            i = i + 1;
        }
        None
    }

    /// The stored result for the analysis of `sentence` within `project`:
    /// the cache-hit path of an analysis request. On a miss the caller must
    /// run the engine and, on success, store what it returned.
    pub fn analyze_cached(&self, project: &Project, sentence: &str) -> (r: Option<
        &AnalysisResult,
    >)
        requires
            self.wf(),
        ensures
            match r {
                Some(v) => cache_has(
                    self.entries@,
                    (project.seed@, crate::data::cat_ids(project.video_ids@), sentence@),
                ) && *v == cache_at(
                    self.entries@,
                    (project.seed@, crate::data::cat_ids(project.video_ids@), sentence@),
                ),
                None => !cache_has(
                    self.entries@,
                    (project.seed@, crate::data::cat_ids(project.video_ids@), sentence@),
                ),
            },
    {
        let key = AnalysisId::from_project_sentence(project, sentence);
        self.lookup(&key)
    }

    /// Stores a successful engine result. A key already held keeps its
    /// first result: the cache never changes an entry.
    pub fn insert(&mut self, key: AnalysisId, result: AnalysisResult)
        requires
            old(self).wf(),
        ensures
            final(self).wf(),
            final(self).entries@ == cache_stored(
                old(self).entries@,
                (CacheEntry { key, result }),
            ),
    {
        proof {
            lemma_cache_persistent(self.entries@, CacheEntry { key, result });
        }
        let kv = self.lookup(&key);
        let hit = kv.is_some();
        if !hit {
            self.entries.push(CacheEntry { key, result });
            proof {
                assert(self.entries@ =~= cache_stored(
                    old(self).entries@,
                    self.entries@.last(),
                ));
            }
        }
    }
}

/// The start of the last line of the engine's standard output: the position
/// of the last newline byte before the final byte, or zero when there is
/// none. The engine's verdict is the JSON document on that line.
pub fn last_line_start(out: &[u8]) -> (r: usize)
    requires
        out@.len() >= 1,
    ensures
        r < out@.len(),
        forall|j: int| r < j < out@.len() - 1 ==> out@[j] != 10,
        r > 0 ==> out@[r as int] == 10,
{
    let mut j: usize = out.len() - 1;
    while j > 0
        invariant
            j < out@.len(),
            forall|w: int| j <= w < out@.len() - 1 ==> out@[w] != 10,
        decreases j,
    {
        if out[j - 1] == 10 {
            return j - 1;
        }
        j = j - 1;
    }
    0
}

} // verus!
