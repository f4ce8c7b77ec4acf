use sentence_mixer::cache::AnalysisCache;
use sentence_mixer::data::{AnalysisId, Phonem, Project, YoutubeId};
use sentence_mixer::downloader::DownloaderActor;
use sentence_mixer::error::DownloadVideoStatus;

fn ids(names: &[&str]) -> Vec<YoutubeId> {
    names.iter().map(|n| YoutubeId::new(n.to_string())).collect()
}

#[test]
fn first_request_marks_whole_batch_pending() {
    let mut dl = DownloaderActor::new();
    let batch = ids(&["a", "b"]);
    // a batch containing any unknown id starts a fetch and every id of the
    // batch becomes pending immediately
    assert!(dl.begin_download(&batch));
    assert_eq!(dl.download_states.len(), 2);
    assert!(dl.download_states.iter().all(|e| !e.done));
    // while the batch is in flight, a second request is a no-op
    assert!(!dl.begin_download(&batch));
}

#[test]
fn ready_batch_is_not_fetched_again() {
    let mut dl = DownloaderActor::new();
    let batch = ids(&["a", "b"]);
    assert!(dl.begin_download(&batch));
    dl.complete_download(&batch, true);
    // every id is ready: no second fetch
    assert!(!dl.begin_download(&batch));
    // a batch with one new id re-fetches, and every id goes pending again
    let wider = ids(&["a", "b", "c"]);
    assert!(dl.begin_download(&wider));
    assert_eq!(dl.download_states.len(), 3);
    assert!(dl.download_states.iter().all(|e| !e.done));
}

#[test]
fn failed_batch_reverts_to_unknown_and_can_retry() {
    let mut dl = DownloaderActor::new();
    let batch = ids(&["a", "b"]);
    assert!(dl.begin_download(&batch));
    dl.complete_download(&batch, false);
    // the whole batch is unknown again, so a retry starts a new fetch
    assert!(dl.download_states.is_empty());
    assert!(dl.begin_download(&batch));
}

#[test]
fn get_videos_returns_handles_in_request_order() {
    let mut dl = DownloaderActor::new();
    let batch = ids(&["a", "b"]);
    dl.begin_download(&batch);
    dl.complete_download(&batch, true);
    let request = ids(&["b", "a"]);
    let videos = dl.get_videos(&request).unwrap();
    assert_eq!(videos.len(), 2);
    assert_eq!(videos[0].id.id, "b");
    assert_eq!(videos[1].id.id, "a");
}

#[test]
fn get_videos_reports_status_of_first_not_ready_id() {
    let mut dl = DownloaderActor::new();
    let ready = ids(&["a"]);
    dl.begin_download(&ready);
    dl.complete_download(&ready, true);
    let pending = ids(&["p"]);
    dl.begin_download(&pending);
    // scanned in request order: the pending id comes first
    let r = dl.get_videos(&ids(&["a", "p", "x"]));
    assert!(matches!(r, Err(DownloadVideoStatus::DownloadPending)));
    // now the never-requested id comes first
    let r = dl.get_videos(&ids(&["x", "p"]));
    assert!(matches!(r, Err(DownloadVideoStatus::NeverDownloaded)));
}

fn demo_project() -> Project {
    Project::new("demo", "4", &["v1".to_string(), "v2".to_string()])
}

fn combo() -> Vec<Vec<Phonem>> {
    vec![vec![Phonem { video_index: 0, start_ms: 100, end_ms: 600 }]]
}

/// A stand-in for the external analysis engine that counts its invocations.
struct CountingEngine {
    calls: usize,
}

impl CountingEngine {
    fn analyze(
        &mut self,
        cache: &mut AnalysisCache,
        project: &Project,
        sentence: &str,
    ) -> Vec<Vec<Phonem>> {
        if let Some(hit) = cache.analyze_cached(project, sentence) {
            return hit.iter().map(|c| c.clone()).collect();
        }
        // cache miss: the engine runs, and its success is stored
        self.calls += 1;
        let result = combo();
        let key = AnalysisId::from_project_sentence(project, sentence);
        cache.insert(key, result.iter().map(|c| c.clone()).collect());
        result
    }
}

#[test]
fn second_analysis_of_same_key_skips_the_engine() {
    let mut cache = AnalysisCache::new();
    let mut engine = CountingEngine { calls: 0 };
    let project = demo_project();
    let first = engine.analyze(&mut cache, &project, "hello world");
    assert_eq!(engine.calls, 1);
    let second = engine.analyze(&mut cache, &project, "hello world");
    // an identical (seed, videoIds, sentence) key that succeeded before is
    // answered from the cache: the engine is not invoked again
    assert_eq!(engine.calls, 1);
    assert_eq!(first.len(), second.len());
    assert_eq!(first[0][0], second[0][0]);
}

#[test]
fn different_key_components_each_miss_the_cache() {
    let mut cache = AnalysisCache::new();
    let mut engine = CountingEngine { calls: 0 };
    let project = demo_project();
    engine.analyze(&mut cache, &project, "hello");
    engine.analyze(&mut cache, &project, "other words");
    assert_eq!(engine.calls, 2);
    // a different seed makes a different key even for the same sentence
    let other_seed = Project::new("demo2", "5", &["v1".to_string(), "v2".to_string()]);
    engine.analyze(&mut cache, &other_seed, "hello");
    assert_eq!(engine.calls, 3);
    // a different video set makes a different key too
    let other_videos = Project::new("demo3", "4", &["v9".to_string()]);
    engine.analyze(&mut cache, &other_videos, "hello");
    assert_eq!(engine.calls, 4);
}

#[test]
fn ambiguity_is_not_cached() {
    let mut cache = AnalysisCache::new();
    let project = demo_project();
    // an ambiguous outcome stores nothing, so the next request misses again
    assert!(cache.analyze_cached(&project, "unclear").is_none());
    assert!(cache.analyze_cached(&project, "unclear").is_none());
}

#[test]
fn analysis_key_concatenates_video_ids_in_order() {
    let project = demo_project();
    let key = AnalysisId::from_project_sentence(&project, "text");
    assert_eq!(key.0, "4");
    assert_eq!(key.1, "v1v2");
    assert_eq!(key.2, "text");
}
