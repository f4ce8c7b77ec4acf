//! The downloader: a per-video state machine over {unknown, pending, ready}.
//!
//! An id is unknown until first referenced, pending while a batch that holds
//! it is being fetched and transcoded, and ready once its handle exists. A
//! batch moves as one unit: beginning a download marks every id of the batch
//! pending; a failed batch reverts every id to unknown so a caller can retry;
//! a successful one marks every id ready. The external fetch and transcode
//! tools themselves run outside this crate and report back through
//! [`DownloaderActor::complete_download`].

use vstd::prelude::*;

use crate::data::{Video, YoutubeId};
use crate::error::DownloadVideoStatus;

verus! {

/// One tracked id: `done` is false while the batch holding it is in flight,
/// true once it has been fetched and transcoded.
#[derive(Debug)]
pub struct DownloadEntry {
    pub id: YoutubeId,
    pub done: bool,
}

/// Whether the state list tracks the id `k` (pending or done).
pub open spec fn state_has(s: Seq<DownloadEntry>, k: Seq<char>) -> bool {
    exists|i: int| 0 <= i < s.len() && s[i].id.id@ == k
}

/// The index of the entry for `k` (meaningful when the keys are unique).
pub open spec fn state_idx(s: Seq<DownloadEntry>, k: Seq<char>) -> int {
    choose|i: int| 0 <= i < s.len() && s[i].id.id@ == k
}

/// Whether the tracked id `k` has finished downloading.
pub open spec fn state_done(s: Seq<DownloadEntry>, k: Seq<char>) -> bool {
    s[state_idx(s, k)].done
}

/// Whether a ready handle for `k` exists.
pub open spec fn vids_has(v: Seq<Video>, k: Seq<char>) -> bool {
    exists|i: int| 0 <= i < v.len() && v[i].id.id@ == k
}

/// Keys are unique in a state list.
pub open spec fn states_unique(s: Seq<DownloadEntry>) -> bool {
    forall|i: int, j: int| 0 <= i < j < s.len() ==> s[i].id.id@ != s[j].id.id@
}

/// Keys are unique in a handle list.
pub open spec fn vids_unique(v: Seq<Video>) -> bool {
    forall|i: int, j: int| 0 <= i < j < v.len() ==> v[i].id.id@ != v[j].id.id@
}

proof fn lemma_state_idx(s: Seq<DownloadEntry>, i: int)
    requires
        states_unique(s),
        0 <= i < s.len(),
    ensures
        state_has(s, s[i].id.id@),
        state_idx(s, s[i].id.id@) == i,
{
    let k = s[i].id.id@;
    assert(state_has(s, k));
    let j = state_idx(s, k);
    if i != j {
        assert(false);
    }
}

/// Owns the download state and the ready handles of every referenced video.
pub struct DownloaderActor {
    pub download_states: Vec<DownloadEntry>,
    pub videos: Vec<Video>,
}

impl DownloaderActor {
    /// Both key spaces hold each id at most once.
    pub open spec fn wf(self) -> bool {
        states_unique(self.download_states@) && vids_unique(self.videos@)
    }

    pub fn new() -> (r: DownloaderActor)
        ensures
            r.wf(),
            r.download_states@.len() == 0,
            r.videos@.len() == 0,
    {
        DownloaderActor { download_states: Vec::new(), videos: Vec::new() }
    }

    fn find_state(&self, id: &YoutubeId) -> (r: Option<usize>)
        requires
            self.wf(),
        ensures
            match r {
                Some(i) => i < self.download_states@.len()
                    && self.download_states@[i as int].id.id@ == id.id@
                    && state_has(self.download_states@, id.id@)
                    && state_idx(self.download_states@, id.id@) == i,
                None => !state_has(self.download_states@, id.id@),
            },
    {
        let mut i: usize = 0;
        while i < self.download_states.len()
            invariant
                self.wf(),
                i <= self.download_states@.len(),
                forall|j: int| 0 <= j < i ==> self.download_states@[j].id.id@ != id.id@,
            decreases self.download_states@.len() - i,
        {
            if self.download_states[i].id.id == id.id {
                proof {
                    lemma_state_idx(self.download_states@, i as int);
                }
                return Some(i);
            }
            i = i + 1;
        }
        None
    }

    fn find_video(&self, id: &YoutubeId) -> (r: Option<usize>)
        requires
            self.wf(),
        ensures
            match r {
                Some(i) => i < self.videos@.len() && self.videos@[i as int].id.id@ == id.id@
                    && vids_has(self.videos@, id.id@),
                None => !vids_has(self.videos@, id.id@),
            },
    {
        let mut i: usize = 0;
        while i < self.videos.len()
            invariant
                i <= self.videos@.len(),
                forall|j: int| 0 <= j < i ==> self.videos@[j].id.id@ != id.id@,
            decreases self.videos@.len() - i,
        {
            if self.videos[i].id.id == id.id {
                return Some(i);
            }
            i = i + 1;
        }
        None
    }

    /// Writes the state of one id, creating its entry if it was unknown.
    fn upsert_state(&mut self, id: &YoutubeId, done: bool)
        requires
            old(self).wf(),
        ensures
            final(self).wf(),
            final(self).videos@ == old(self).videos@,
            forall|k: Seq<char>|
                state_has(final(self).download_states@, k) <==> (state_has(
                    old(self).download_states@,
                    k,
                ) || k == id.id@),
            state_has(final(self).download_states@, id.id@),
            state_done(final(self).download_states@, id.id@) == done,
            forall|k: Seq<char>|
                (k != id.id@ && state_has(old(self).download_states@, k)) ==> state_done(
                    final(self).download_states@,
                    k,
                ) == state_done(old(self).download_states@, k),
    {
        let found = self.find_state(id);
        match found {
            Some(i) => {
                let entry = DownloadEntry { id: id.duplicate(), done };
                self.download_states[i] = entry;
                proof {
                    let s_old = old(self).download_states@;
                    let s_new = self.download_states@;
                    assert(s_new =~= s_old.update(i as int, self.download_states@[i as int]));
                    assert forall|k: Seq<char>|
                        state_has(s_new, k) <==> (state_has(s_old, k) || k == id.id@) by {
                        if state_has(s_new, k) {
                            let w = choose|w: int| 0 <= w < s_new.len() && s_new[w].id.id@ == k;
                            assert(s_old[w].id.id@ == k || k == id.id@);
                        }
                        if state_has(s_old, k) {
                            let w = choose|w: int| 0 <= w < s_old.len() && s_old[w].id.id@ == k;
                            if w == i as int {
                                assert(k == id.id@);
                                assert(s_new[w].id.id@ == k);
                            } else {
                                assert(s_new[w].id.id@ == k);
                            }
                        }
                        if k == id.id@ {
                            assert(s_new[i as int].id.id@ == k);
                        }
                    }
                    lemma_state_idx(s_new, i as int);
                    assert forall|k: Seq<char>|
                        (k != id.id@ && state_has(s_old, k)) implies state_done(s_new, k)
                        == state_done(s_old, k) by {
                        let w = choose|w: int| 0 <= w < s_old.len() && s_old[w].id.id@ == k;
                        lemma_state_idx(s_old, w);
                        assert(w != i as int);
                        lemma_state_idx(s_new, w);
                    }
                }
            },
            None => {
                let entry = DownloadEntry { id: id.duplicate(), done };
                self.download_states.push(entry);
                proof {
                    let s_old = old(self).download_states@;
                    let s_new = self.download_states@;
                    let n = s_old.len() as int;
                    assert(s_new =~= s_old.push(s_new[n]));
                    assert(states_unique(s_new));
                    lemma_state_idx(s_new, n);
                    assert forall|k: Seq<char>|
                        state_has(s_new, k) <==> (state_has(s_old, k) || k == id.id@) by {
                        if state_has(s_new, k) {
                            let w = choose|w: int| 0 <= w < s_new.len() && s_new[w].id.id@ == k;
                            if w < n {
                                assert(s_old[w].id.id@ == k);
                            }
                        }
                        if state_has(s_old, k) {
                            let w = choose|w: int| 0 <= w < s_old.len() && s_old[w].id.id@ == k;
                            assert(s_new[w].id.id@ == k);
                        }
                        if k == id.id@ {
                            assert(s_new[n].id.id@ == k);
                        }
                    }
                    assert forall|k: Seq<char>|
                        (k != id.id@ && state_has(s_old, k)) implies state_done(s_new, k)
                        == state_done(s_old, k) by {
                        let w = choose|w: int| 0 <= w < s_old.len() && s_old[w].id.id@ == k;
                        lemma_state_idx(s_old, w);
                        lemma_state_idx(s_new, w);
                    }
                }
            },
        }
    }

    /// Forgets the state of one id, reverting it to unknown.
    fn remove_state(&mut self, id: &YoutubeId)
        requires
            old(self).wf(),
        ensures
            final(self).wf(),
            final(self).videos@ == old(self).videos@,
            forall|k: Seq<char>|
                state_has(final(self).download_states@, k) <==> (state_has(
                    old(self).download_states@,
                    k,
                ) && k != id.id@),
            forall|k: Seq<char>|
                (k != id.id@ && state_has(old(self).download_states@, k)) ==> state_done(
                    final(self).download_states@,
                    k,
                ) == state_done(old(self).download_states@, k),
    {
        let found = self.find_state(id);
        match found {
            Some(i) => {
                self.download_states.remove(i);
                proof {
                    let s_old = old(self).download_states@;
                    let s_new = self.download_states@;
                    assert(s_new =~= s_old.remove(i as int));
                    assert forall|w: int, x: int| 0 <= w < x < s_new.len() implies s_new[w].id.id@
                        != s_new[x].id.id@ by {
                        let w0: int = if w < i as int {
                            w
                        } else {
                            w + 1
                        };
                        let x0: int = if x < i as int {
                            x
                        } else {
                            x + 1
                        };
                        assert(s_new[w] == s_old[w0]);
                        assert(s_new[x] == s_old[x0]);
                    }
                    assert forall|k: Seq<char>|
                        state_has(s_new, k) <==> (state_has(s_old, k) && k != id.id@) by {
                        if state_has(s_new, k) {
                            let w = choose|w: int| 0 <= w < s_new.len() && s_new[w].id.id@ == k;
                            let w0: int = if w < i as int {
                                w
                            } else {
                                w + 1
                            };
                            assert(s_old[w0].id.id@ == k);
                            lemma_state_idx(s_old, w0);
                            lemma_state_idx(s_old, i as int);
                        }
                        if state_has(s_old, k) && k != id.id@ {
                            let w = choose|w: int| 0 <= w < s_old.len() && s_old[w].id.id@ == k;
                            let w1: int = if w < i as int {
                                w
                            } else {
                                w - 1
                            };
                            assert(s_new[w1].id.id@ == k);
                        }
                    }
                    assert forall|k: Seq<char>|
                        (k != id.id@ && state_has(s_old, k)) implies state_done(s_new, k)
                        == state_done(s_old, k) by {
                        let w = choose|w: int| 0 <= w < s_old.len() && s_old[w].id.id@ == k;
                        lemma_state_idx(s_old, w);
                        let w1: int = if w < i as int {
                            w
                        } else {
                            w - 1
                        };
                        assert(s_new[w1].id.id@ == k);
                        lemma_state_idx(s_new, w1);
                        assert(s_new[w1] == s_old[w]);
                    }
                }
            },
            None => {
            },
        }
    }

    /// Records a ready handle for one id.
    fn add_video(&mut self, id: &YoutubeId)
        requires
            old(self).wf(),
        ensures
            final(self).wf(),
            final(self).download_states@ == old(self).download_states@,
            forall|k: Seq<char>|
                vids_has(final(self).videos@, k) <==> (vids_has(old(self).videos@, k) || k
                    == id.id@),
    {
        let found = self.find_video(id);
        match found {
            Some(_) => {
            },
            None => {
                self.videos.push(Video::new(id.duplicate()));
                proof {
                    let v_old = old(self).videos@;
                    let v_new = self.videos@;
                    let n = v_old.len() as int;
                    assert(v_new =~= v_old.push(v_new[n]));
                    assert forall|k: Seq<char>|
                        vids_has(v_new, k) <==> (vids_has(v_old, k) || k == id.id@) by {
                        if vids_has(v_new, k) {
                            let w = choose|w: int| 0 <= w < v_new.len() && v_new[w].id.id@ == k;
                            if w < n {
                                assert(v_old[w].id.id@ == k);
                            }
                        }
                        if vids_has(v_old, k) {
                            let w = choose|w: int| 0 <= w < v_old.len() && v_old[w].id.id@ == k;
                            assert(v_new[w].id.id@ == k);
                        }
                        if k == id.id@ {
                            assert(v_new[n].id.id@ == k);
                        }
                    }
                }
            },
        }
    }

    /// Begins a batch download if any id of the batch is unknown.
    ///
    /// If every id is already pending or ready this is a no-op success: the
    /// caller must not invoke the fetch tool, and nothing queues behind the
    /// flight already in progress. Otherwise every id of the batch becomes
    /// pending at once and the caller must invoke the fetch tool for the
    /// whole batch, reporting back through [`Self::complete_download`].
    pub fn begin_download(&mut self, yt_ids: &[YoutubeId]) -> (started: bool)
        requires
            old(self).wf(),
        ensures
            final(self).wf(),
            started == exists|i: int|
                0 <= i < yt_ids@.len() && !state_has(
                    old(self).download_states@,
                    yt_ids@[i].id@,
                ),
            !started ==> final(self).download_states@ == old(self).download_states@,
            final(self).videos@ == old(self).videos@,
            started ==> forall|k: Seq<char>|
                state_has(final(self).download_states@, k) <==> (state_has(
                    old(self).download_states@,
                    k,
                ) || in_batch(yt_ids@, k)),
            started ==> forall|i: int|
                0 <= i < yt_ids@.len() ==> (state_has(final(self).download_states@, yt_ids@[i].id@)
                    && !state_done(final(self).download_states@, yt_ids@[i].id@)),
            started ==> forall|k: Seq<char>|
                (!in_batch(yt_ids@, k) && state_has(old(self).download_states@, k)) ==> state_done(
                    final(self).download_states@,
                    k,
                ) == state_done(old(self).download_states@, k),
    {
        let mut any_unknown = false;
        let mut i: usize = 0;
        while i < yt_ids.len()
            invariant
                self.wf(),
                i <= yt_ids@.len(),
                any_unknown == exists|j: int|
                    0 <= j < i && !state_has(self.download_states@, yt_ids@[j].id@),
            decreases yt_ids@.len() - i,
        {
            if self.find_state(&yt_ids[i]).is_none() {
                any_unknown = true;
            }
            i = i + 1;
        }
        if !any_unknown {
            return false;
        }
        let ghost s_init = self.download_states@;
        let ghost v_init = self.videos@;
        let mut i: usize = 0;
        while i < yt_ids.len()
            invariant
                self.wf(),
                i <= yt_ids@.len(),
                self.videos@ == v_init,
                forall|k: Seq<char>|
                    state_has(self.download_states@, k) <==> (state_has(s_init, k) || in_prefix(
                        yt_ids@,
                        i as int,
                        k,
                    )),
                forall|j: int|
                    0 <= j < i ==> (state_has(self.download_states@, yt_ids@[j].id@)
                        && !state_done(self.download_states@, yt_ids@[j].id@)),
                forall|k: Seq<char>|
                    (!in_prefix(yt_ids@, i as int, k) && state_has(s_init, k)) ==> state_done(
                        self.download_states@,
                        k,
                    ) == state_done(s_init, k),
            decreases yt_ids@.len() - i,
        {
            let ghost s_prev = self.download_states@;
            let ghost i0 = i as int;
            self.upsert_state(&yt_ids[i], false);
            i = i + 1;
            proof {
                assert(i as int == i0 + 1);
                lemma_in_prefix_step(yt_ids@, i0 + 1);
                let s_old = s_init;
                assert forall|k: Seq<char>|
                    state_has(self.download_states@, k) <==> (state_has(s_old, k) || in_prefix(
                        yt_ids@,
                        i as int,
                        k,
                    )) by {
                    assert(state_has(self.download_states@, k) <==> (state_has(s_prev, k) || k
                        == yt_ids@[i0].id@));
                    assert(state_has(s_prev, k) <==> (state_has(s_old, k) || in_prefix(
                        yt_ids@,
                        i0,
                        k,
                    )));
                    assert(in_prefix(yt_ids@, i0 + 1, k) <==> (in_prefix(yt_ids@, i0, k) || k
                        == yt_ids@[i0].id@));
                }
                assert forall|k: Seq<char>|
                    (!in_prefix(yt_ids@, i as int, k) && state_has(s_old, k)) implies state_done(
                    self.download_states@,
                    k,
                ) == state_done(s_old, k) by {
                    assert(in_prefix(yt_ids@, i0 + 1, k) <==> (in_prefix(yt_ids@, i0, k) || k
                        == yt_ids@[i0].id@));
                    assert(k != yt_ids@[i0].id@);
                    assert(state_has(s_prev, k));
                    assert(state_done(s_prev, k) == state_done(s_old, k));
                }
            }
        }
        proof {
            assert(i as int == yt_ids@.len() as int);
        }
        true
    }

    /// Ends a batch download. On success every id of the batch becomes ready
    /// and gets a handle; on failure every id of the batch reverts to
    /// unknown, so a later request may retry, and the handles are untouched.
    pub fn complete_download(&mut self, yt_ids: &[YoutubeId], success: bool)
        requires
            old(self).wf(),
        ensures
            final(self).wf(),
            success ==> forall|k: Seq<char>|
                state_has(final(self).download_states@, k) <==> (state_has(
                    old(self).download_states@,
                    k,
                ) || in_batch(yt_ids@, k)),
            success ==> forall|i: int|
                0 <= i < yt_ids@.len() ==> (state_done(final(self).download_states@, yt_ids@[i].id@)
                    && vids_has(final(self).videos@, yt_ids@[i].id@)),
            success ==> forall|k: Seq<char>|
                vids_has(final(self).videos@, k) <==> (vids_has(old(self).videos@, k) || in_batch(
                    yt_ids@,
                    k,
                )),
            !success ==> forall|k: Seq<char>|
                state_has(final(self).download_states@, k) <==> (state_has(
                    old(self).download_states@,
                    k,
                ) && !in_batch(yt_ids@, k)),
            !success ==> final(self).videos@ == old(self).videos@,
            forall|k: Seq<char>|
                (!in_batch(yt_ids@, k) && state_has(old(self).download_states@, k)) ==> state_done(
                    final(self).download_states@,
                    k,
                ) == state_done(old(self).download_states@, k),
    {
        let ghost s_init = self.download_states@;
        let ghost v_init = self.videos@;
        let mut i: usize = 0;
        while i < yt_ids.len()
            invariant
                self.wf(),
                i <= yt_ids@.len(),
                success ==> forall|k: Seq<char>|
                    state_has(self.download_states@, k) <==> (state_has(s_init, k) || in_prefix(
                        yt_ids@,
                        i as int,
                        k,
                    )),
                success ==> forall|j: int|
                    0 <= j < i ==> (state_done(self.download_states@, yt_ids@[j].id@) && vids_has(
                        self.videos@,
                        yt_ids@[j].id@,
                    )),
                success ==> forall|k: Seq<char>|
                    vids_has(self.videos@, k) <==> (vids_has(v_init, k) || in_prefix(
                        yt_ids@,
                        i as int,
                        k,
                    )),
                !success ==> forall|k: Seq<char>|
                    state_has(self.download_states@, k) <==> (state_has(s_init, k) && !in_prefix(
                        yt_ids@,
                        i as int,
                        k,
                    )),
                !success ==> self.videos@ == v_init,
                forall|k: Seq<char>|
                    (!in_prefix(yt_ids@, i as int, k) && state_has(s_init, k)) ==> state_done(
                        self.download_states@,
                        k,
                    ) == state_done(s_init, k),
            decreases yt_ids@.len() - i,
        {
            let ghost s_prev = self.download_states@;
            let ghost v_prev = self.videos@;
            let ghost i0 = i as int;
            proof {
                if success {
                    assert(forall|k: Seq<char>|
                        state_has(s_prev, k) <==> (state_has(s_init, k) || in_prefix(
                            yt_ids@,
                            i0,
                            k,
                        )));
                } else {
                    assert(forall|k: Seq<char>|
                        state_has(s_prev, k) <==> (state_has(s_init, k) && !in_prefix(
                            yt_ids@,
                            i0,
                            k,
                        )));
                }
            }
            if success {
                self.upsert_state(&yt_ids[i], true);
                self.add_video(&yt_ids[i]);
            } else {
                self.remove_state(&yt_ids[i]);
            }
            i = i + 1;
            proof {
                assert(i as int == i0 + 1);
                lemma_in_prefix_step(yt_ids@, i0 + 1);
                let s_old = s_init;
                let v_old = v_init;
                let kk = yt_ids@[i0].id@;
                if success {
                    assert forall|k: Seq<char>|
                        state_has(self.download_states@, k) <==> (state_has(s_old, k) || in_prefix(
                            yt_ids@,
                            i as int,
                            k,
                        )) by {
                        assert(state_has(self.download_states@, k) <==> (state_has(s_prev, k) || k
                            == kk));
                        assert(state_has(s_prev, k) <==> (state_has(s_old, k) || in_prefix(
                            yt_ids@,
                            i0,
                            k,
                        )));
                        assert(in_prefix(yt_ids@, i0 + 1, k) <==> (in_prefix(yt_ids@, i0, k) || k
                            == kk));
                    }
                    assert forall|k: Seq<char>|
                        vids_has(self.videos@, k) <==> (vids_has(v_old, k) || in_prefix(
                            yt_ids@,
                            i as int,
                            k,
                        )) by {
                        assert(vids_has(self.videos@, k) <==> (vids_has(v_prev, k) || k == kk));
                        assert(vids_has(v_prev, k) <==> (vids_has(v_old, k) || in_prefix(
                            yt_ids@,
                            i0,
                            k,
                        )));
                        assert(in_prefix(yt_ids@, i0 + 1, k) <==> (in_prefix(yt_ids@, i0, k) || k
                            == kk));
                    }
                } else {
                    assert forall|k: Seq<char>|
                        state_has(self.download_states@, k) <==> (state_has(s_old, k)
                            && !in_prefix(yt_ids@, i as int, k)) by {
                        assert(state_has(self.download_states@, k) <==> (state_has(s_prev, k) && k
                            != kk));
                        assert(state_has(s_prev, k) <==> (state_has(s_old, k) && !in_prefix(
                            yt_ids@,
                            i0,
                            k,
                        )));
                        assert(in_prefix(yt_ids@, i0 + 1, k) <==> (in_prefix(yt_ids@, i0, k) || k
                            == kk));
                    }
                }
                assert forall|k: Seq<char>|
                    (!in_prefix(yt_ids@, i as int, k) && state_has(s_old, k)) implies state_done(
                    self.download_states@,
                    k,
                ) == state_done(s_old, k) by {
                    assert(in_prefix(yt_ids@, i0 + 1, k) <==> (in_prefix(yt_ids@, i0, k) || k
                        == kk));
                    assert(k != kk);
                    assert(state_has(s_prev, k));
                    assert(state_done(s_prev, k) == state_done(s_old, k));
                }
            }
        }
        proof {
            assert(i as int == yt_ids@.len() as int);
        }
    }

    /// Hands out the ready handles of a request, in request order. Fails with
    /// the status of the first id, in request order, that has no handle yet:
    /// pending if its download is tracked, never-downloaded otherwise.
    pub fn get_videos(&self, yt_ids: &[YoutubeId]) -> (r: Result<Vec<Video>, DownloadVideoStatus>)
        requires
            self.wf(),
        ensures
            r.is_ok() == forall|i: int|
                0 <= i < yt_ids@.len() ==> vids_has(self.videos@, yt_ids@[i].id@),
            match r {
                Ok(vs) => vs@.len() == yt_ids@.len() && forall|i: int|
                    0 <= i < yt_ids@.len() ==> vs@[i].id.id@ == yt_ids@[i].id@,
                Err(st) => exists|i: int|
                    0 <= i < yt_ids@.len() && !vids_has(self.videos@, yt_ids@[i].id@) && (forall|
                        j: int,
                    |
                        0 <= j < i ==> vids_has(self.videos@, yt_ids@[j].id@)) && st == (
                    if state_has(self.download_states@, yt_ids@[i].id@) {
                        DownloadVideoStatus::DownloadPending
                    } else {
                        DownloadVideoStatus::NeverDownloaded
                    }),
            },
    {
        let mut out: Vec<Video> = Vec::new();
        let mut i: usize = 0;
        while i < yt_ids.len()
            invariant
                self.wf(),
                i <= yt_ids@.len(),
                out@.len() == i,
                forall|j: int| 0 <= j < i ==> out@[j].id.id@ == yt_ids@[j].id@,
                forall|j: int| 0 <= j < i ==> vids_has(self.videos@, yt_ids@[j].id@),
            decreases yt_ids@.len() - i,
        {
            match self.find_video(&yt_ids[i]) {
                Some(vi) => {
                    out.push(self.videos[vi].duplicate());
                },
                None => {
                    if self.find_state(&yt_ids[i]).is_some() {
                        return Err(DownloadVideoStatus::DownloadPending);
                    } else {
                        return Err(DownloadVideoStatus::NeverDownloaded);
                    }
                },
            }
            i = i + 1;
        }
        Ok(out)
    }
}

/// Whether one of the first `n` ids of `ids` is the key `k`.
pub open spec fn in_prefix(ids: Seq<YoutubeId>, n: int, k: Seq<char>) -> bool {
    exists|i: int| 0 <= i < n && i < ids.len() && ids[i].id@ == k
}

/// Whether the batch `ids` holds the key `k`.
pub open spec fn in_batch(ids: Seq<YoutubeId>, k: Seq<char>) -> bool {
    in_prefix(ids, ids.len() as int, k)
}

proof fn lemma_in_prefix_step(ids: Seq<YoutubeId>, i: int)
    requires
        1 <= i <= ids.len(),
    ensures
        forall|k: Seq<char>|
            in_prefix(ids, i, k) <==> (in_prefix(ids, i - 1, k) || k == ids[i - 1].id@),
{
    assert forall|k: Seq<char>|
        in_prefix(ids, i, k) <==> (in_prefix(ids, i - 1, k) || k == ids[i - 1].id@) by {
        if in_prefix(ids, i, k) {
            let w = choose|w: int| 0 <= w < i && w < ids.len() && ids[w].id@ == k;
            if w < i - 1 {
                assert(in_prefix(ids, i - 1, k));
            }
        }
        if in_prefix(ids, i - 1, k) {
            let w = choose|w: int| 0 <= w < i - 1 && w < ids.len() && ids[w].id@ == k;
            assert(0 <= w < i && w < ids.len() && ids[w].id@ == k);
        }
        if k == ids[i - 1].id@ {
            assert(0 <= i - 1 < i && i - 1 < ids.len() && ids[i - 1].id@ == k);
        }
    }
}

} // verus!
