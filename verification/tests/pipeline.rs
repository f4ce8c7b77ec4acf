use sentence_mixer::cache::{last_line_start, AnalysisCache};
use sentence_mixer::data::{
    video_file_stem, AmbiguityError, AnalysisId, Phonem, PreviewId, Segment, YoutubeId,
};
use sentence_mixer::downloader::DownloaderActor;
use sentence_mixer::messages::ServerRequest;
use sentence_mixer::outside::{base64_encode, is_blank};
use sentence_mixer::renderer::{clip_schedule, export_concat, hash_segments, select_combo};
use sentence_mixer::sm_actor::SmActor;
use sentence_mixer::text::decimal_string;

/// Drives one detached preview pipeline to completion against a stubbed
/// engine outcome, collecting what would be broadcast.
fn run_preview_pipeline(
    dl: &DownloaderActor,
    cache: &mut AnalysisCache,
    pr: &sentence_mixer::sm_actor::PreviewRequest,
    engine_outcome: Result<Vec<Vec<Phonem>>, String>,
) -> Vec<ServerRequest> {
    let mut out = Vec::new();
    // stage: request the project's full video set; abort silently if not ready
    if dl.get_videos(&pr.project.video_ids).is_err() {
        return out;
    }
    // stage: analysis through the cache, engine on a miss
    let result = match cache.analyze_cached(&pr.project, &pr.segment.sentence) {
        Some(hit) => hit.iter().map(|c| c.clone()).collect::<Vec<_>>(),
        None => match engine_outcome {
            Ok(result) => {
                let key = AnalysisId::from_project_sentence(&pr.project, &pr.segment.sentence);
                cache.insert(key, result.iter().map(|c| c.clone()).collect());
                result
            }
            Err(token) => {
                out.push(ServerRequest::AmbiguityToken { row: pr.row, token });
                return out;
            }
        },
    };
    // stage: select the chosen interpretation; abort silently if out of range
    let combo = match select_combo(&result, pr.segment.combo_index) {
        Some(c) => c.clone(),
        None => return out,
    };
    // stage: the artifact is content-addressed; pretend it was rendered and
    // read back, then encode the payload for transport
    let id = PreviewId::from_project_sentence(&pr.project.video_ids, &combo);
    let _file = id.file_name();
    let data = base64_encode(b"artifact bytes");
    out.push(ServerRequest::Preview {
        data,
        segment: Segment::new(&pr.segment.sentence),
    });
    out
}

#[test]
fn end_to_end_preview_or_ambiguity_never_both() {
    let mut actor = SmActor::new();
    actor.connect_with_id(1);
    let mut dl = DownloaderActor::new();
    let mut cache = AnalysisCache::new();

    let eff = actor
        .handle_create_project(1, "demo".to_string(), "4".to_string(), &["v1".to_string()])
        .unwrap();
    dl.begin_download(&eff.download);
    dl.complete_download(&eff.download, true);

    let seff = actor
        .handle_create_segment("demo".to_string(), "hello world".to_string(), 0)
        .unwrap();
    match &seff.broadcast.message {
        ServerRequest::NewSegment { segment, row } => {
            assert_eq!(*row, 0);
            assert_eq!(segment.sentence, "hello world");
        }
        _ => panic!("expected the insertion event"),
    }
    let pr = seff.preview.expect("a non-blank sentence launches the pipeline");

    // a clean engine outcome yields exactly one Preview and no ambiguity
    let combos = vec![vec![Phonem { video_index: 0, start_ms: 0, end_ms: 500 }]];
    let sent = run_preview_pipeline(&dl, &mut cache, &pr, Ok(combos));
    assert_eq!(sent.len(), 1);
    assert!(matches!(sent[0], ServerRequest::Preview { .. }));

    // an ambiguous outcome, on a fresh key, yields exactly one token event
    let seff = actor
        .handle_modify_segment_sentence("demo".to_string(), 0, "glorx".to_string())
        .unwrap();
    let pr = seff.preview.unwrap();
    let sent = run_preview_pipeline(&dl, &mut cache, &pr, Err("glorx".to_string()));
    assert_eq!(sent.len(), 1);
    match &sent[0] {
        ServerRequest::AmbiguityToken { row, token } => {
            assert_eq!(*row, 0);
            assert_eq!(token, "glorx");
        }
        _ => panic!("expected the ambiguity event"),
    }
}

#[test]
fn pipeline_aborts_silently_while_videos_not_ready() {
    let mut actor = SmActor::new();
    actor.connect_with_id(1);
    let dl = DownloaderActor::new();
    let mut cache = AnalysisCache::new();
    actor
        .handle_create_project(1, "demo".to_string(), "4".to_string(), &["v1".to_string()])
        .unwrap();
    let seff = actor
        .handle_create_segment("demo".to_string(), "hello".to_string(), 0)
        .unwrap();
    let pr = seff.preview.unwrap();
    let sent = run_preview_pipeline(&dl, &mut cache, &pr, Ok(vec![vec![]]));
    assert!(sent.is_empty());
}

#[test]
fn export_concatenates_surviving_combos_in_segment_order() {
    let p = |v: u8, s: u64, e: u64| Phonem { video_index: v, start_ms: s, end_ms: e };
    let segments = vec![
        Segment { sentence: "a".to_string(), combo_index: 0 },
        Segment { sentence: "b".to_string(), combo_index: 1 },
        Segment { sentence: "c".to_string(), combo_index: 0 },
        Segment { sentence: "d".to_string(), combo_index: 4 },
    ];
    let analyses = vec![
        Some(vec![vec![p(0, 0, 10)]]),
        Some(vec![vec![p(1, 0, 1)], vec![p(1, 20, 30), p(1, 40, 50)]]),
        None, // ambiguous: dropped from the export
        Some(vec![vec![p(2, 0, 5)]]), // index 4 out of range: dropped
    ];
    let out = export_concat(&segments, &analyses);
    assert_eq!(out, vec![p(0, 0, 10), p(1, 20, 30), p(1, 40, 50)]);
}

#[test]
fn clip_schedule_lays_spans_end_to_end() {
    let spans = vec![
        Phonem { video_index: 0, start_ms: 1000, end_ms: 1500 },
        Phonem { video_index: 1, start_ms: 200, end_ms: 450 },
        Phonem { video_index: 0, start_ms: 0, end_ms: 100 },
    ];
    let plan = clip_schedule(&spans);
    assert_eq!(plan.len(), 3);
    assert_eq!((plan[0].timeline_start_ms, plan[0].start_ms, plan[0].duration_ms), (0, 1000, 500));
    assert_eq!((plan[1].timeline_start_ms, plan[1].start_ms, plan[1].duration_ms), (500, 200, 250));
    assert_eq!((plan[2].timeline_start_ms, plan[2].start_ms, plan[2].duration_ms), (750, 0, 100));
}

#[test]
fn segment_digest_concatenates_sentence_and_index() {
    let segments = vec![
        Segment { sentence: "hello".to_string(), combo_index: 0 },
        Segment { sentence: "world".to_string(), combo_index: 12 },
    ];
    assert_eq!(hash_segments(&segments), "hello0world12");
    // identical segment state gives an identical tag
    let again = vec![
        Segment { sentence: "hello".to_string(), combo_index: 0 },
        Segment { sentence: "world".to_string(), combo_index: 12 },
    ];
    assert_eq!(hash_segments(&segments), hash_segments(&again));
}

#[test]
fn decimal_rendering_is_exact() {
    assert_eq!(decimal_string(0), "0");
    assert_eq!(decimal_string(7), "7");
    assert_eq!(decimal_string(1234), "1234");
    assert_eq!(decimal_string(65535), "65535");
    assert_eq!(decimal_string(u64::MAX), "18446744073709551615");
}

#[test]
fn base64_encoding_matches_the_standard_alphabet() {
    // this would fail if the encoder handed its input back unchanged
    assert_eq!(base64_encode(b"hello"), "aGVsbG8=");
    assert_eq!(base64_encode(b""), "");
    assert_eq!(base64_encode(&[0xfb, 0xff]), "+/8=");
    assert_eq!(base64_encode(b"hello"), base64::encode(b"hello"));
}

#[test]
fn blank_detection_matches_trimming() {
    assert!(is_blank(""));
    assert!(is_blank(" \t\n "));
    assert!(!is_blank(" a "));
    assert_eq!(is_blank("  x"), "  x".trim().is_empty());
}

#[test]
fn artifact_names_are_content_addressed() {
    let vids = vec![YoutubeId::new("v1".to_string())];
    let spans = vec![Phonem { video_index: 0, start_ms: 10, end_ms: 20 }];
    let a = PreviewId::from_project_sentence(&vids, &spans).file_name();
    let b = PreviewId::from_project_sentence(&vids, &spans).file_name();
    // equal inputs map to the same file, so an existing artifact is reused
    assert_eq!(a, b);
    // a different span sequence maps elsewhere
    let other = vec![Phonem { video_index: 0, start_ms: 10, end_ms: 21 }];
    let c = PreviewId::from_project_sentence(&vids, &other).file_name();
    assert_ne!(a, c);
    // the name is a decimal rendering of the content hash
    assert!(a.chars().all(|ch| ch.is_ascii_digit()));
}

#[test]
fn last_line_start_finds_the_engine_verdict() {
    assert_eq!(last_line_start(b"{\"ok\":1}\n"), 0);
    assert_eq!(last_line_start(b"noise\n{\"ok\":1}\n"), 5);
    assert_eq!(last_line_start(b"a\nb\nfinal"), 3);
    assert_eq!(last_line_start(b"x"), 0);
}

#[test]
fn video_file_stems_distinguish_resolutions() {
    assert_eq!(video_file_stem("abc", false), "abc");
    assert_eq!(video_file_stem("abc", true), "abc_small");
}

#[test]
fn ambiguity_message_names_the_word() {
    let e = AmbiguityError { word: "glorx".to_string() };
    assert_eq!(e.message(), "\"glorx\" is ambiguous");
}

#[test]
fn join_preview_plan_covers_exactly_cached_segments() {
    let mut actor = SmActor::new();
    actor.connect_with_id(1);
    let mut cache = AnalysisCache::new();
    actor
        .handle_create_project(1, "demo".to_string(), "4".to_string(), &["v1".to_string()])
        .unwrap();
    actor
        .handle_create_segment("demo".to_string(), "cached".to_string(), 0)
        .unwrap();
    actor
        .handle_create_segment("demo".to_string(), "not yet".to_string(), 1)
        .unwrap();
    let project = &actor.projects[0];
    let key = AnalysisId::from_project_sentence(project, "cached");
    cache.insert(key, vec![vec![Phonem { video_index: 0, start_ms: 0, end_ms: 9 }]]);
    let plan = sentence_mixer::renderer::join_preview_plan(&cache, project);
    assert_eq!(plan.len(), 2);
    let job = plan[0].as_ref().expect("the cached segment is owed a preview");
    assert_eq!(job.segment.sentence, "cached");
    assert!(job.file_name.chars().all(|ch| ch.is_ascii_digit()));
    assert!(plan[1].is_none(), "an unanalyzed segment is silently omitted");
}
