//! The computable side of rendering: which interpretation a preview uses,
//! how its spans are laid out on the timeline, what an export concatenates,
//! and the digest that tags a finished render. The media engine that turns
//! this into files runs outside this crate, against these exact plans.

use vstd::prelude::*;

use crate::cache::{cache_at, cache_has, AnalysisCache};
use crate::data::{
    artifact_hash, cat_ids, AnalysisResult, Combo, Phonem, PreviewId, Project, Segment,
};
use crate::text::dec_str;

verus! {

/// The interpretation a segment points at, when its index is in range; a
/// pipeline whose index is out of range aborts instead of rendering.
pub fn select_combo(result: &AnalysisResult, combo_index: u16) -> (r: Option<&Combo>)
    ensures
        r is Some <==> (combo_index as int) < result@.len(),
        r matches Some(c) ==> *c == result@[combo_index as int],
{
    if (combo_index as usize) < result.len() {
        Some(&result[combo_index as usize])
    } else {
        None
    }
}

/// One clip order for the media engine: play the slice of the span's video
/// from `start_ms`, for `duration_ms`, at `timeline_start_ms` of the output.
#[derive(Debug, Clone, Copy, PartialEq, Eq, Structural)]
pub struct ClipSpan {
    pub timeline_start_ms: u64,
    pub start_ms: u64,
    pub duration_ms: u64,
}

/// The length of the first `n` spans laid end to end, in milliseconds.
pub open spec fn total_duration(ps: Seq<Phonem>, n: int) -> int
    decreases n,
{
    if n <= 0 {
        0
    } else {
        total_duration(ps, n - 1) + ps[n - 1].end_ms - ps[n - 1].start_ms
    }
}

proof fn lemma_total_duration_mono(ps: Seq<Phonem>, n: int, m: int)
    requires
        forall|i: int| 0 <= i < ps.len() ==> (#[trigger] ps[i]).wf(),
        0 <= n <= m <= ps.len(),
    ensures
        total_duration(ps, n) <= total_duration(ps, m),
    decreases m - n,
{
    if n < m {
        lemma_total_duration_mono(ps, n, m - 1);
    }
}

/// Lays the spans end to end: clip `i` starts where the first `i` spans
/// end, keeps its source offset, and lasts exactly its own length.
pub fn clip_schedule(phonems: &[Phonem]) -> (r: Vec<ClipSpan>)
    requires
        forall|i: int| 0 <= i < phonems@.len() ==> (#[trigger] phonems@[i]).wf(),
        total_duration(phonems@, phonems@.len() as int) <= u64::MAX,
    ensures
        r@.len() == phonems@.len(),
        forall|i: int|
            0 <= i < phonems@.len() ==> ((#[trigger] r@[i]).timeline_start_ms == total_duration(
                phonems@,
                i,
            ) && r@[i].start_ms == phonems@[i].start_ms && r@[i].duration_ms == phonems@[i].end_ms
                - phonems@[i].start_ms),
{
    let mut r: Vec<ClipSpan> = Vec::new();
    let mut acc: u64 = 0;
    let mut i: usize = 0;
    while i < phonems.len()
        invariant
            forall|k: int| 0 <= k < phonems@.len() ==> (#[trigger] phonems@[k]).wf(),
            total_duration(phonems@, phonems@.len() as int) <= u64::MAX,
            i <= phonems@.len(),
            acc == total_duration(phonems@, i as int),
            r@.len() == i,
            forall|k: int|
                0 <= k < i ==> ((#[trigger] r@[k]).timeline_start_ms == total_duration(phonems@, k)
                    && r@[k].start_ms == phonems@[k].start_ms && r@[k].duration_ms
                    == phonems@[k].end_ms - phonems@[k].start_ms),
        decreases phonems@.len() - i,
    {
        let p = phonems[i];
        proof {
            lemma_total_duration_mono(phonems@, i as int + 1, phonems@.len() as int);
        }
        let duration = p.end_ms - p.start_ms;
        r.push(ClipSpan { timeline_start_ms: acc, start_ms: p.start_ms, duration_ms: duration });
        acc = acc + duration;
        i = i + 1;
    }
    r
}

/// What an export concatenates: in segment order, each segment whose
/// analysis succeeded and whose chosen interpretation exists contributes
/// that interpretation's spans; ambiguous or out-of-range segments are
/// dropped.
pub open spec fn export_selection(
    segs: Seq<Segment>,
    analyses: Seq<Option<AnalysisResult>>,
) -> Seq<Phonem>
    decreases segs.len(),
{
    if segs.len() == 0 {
        Seq::empty()
    } else {
        let prefix = export_selection(segs.drop_last(), analyses.drop_last());
        match analyses.last() {
            Some(res) => {
                if (segs.last().combo_index as int) < res@.len() {
                    prefix + res@[segs.last().combo_index as int]@
                } else {
                    prefix
                }
            },
            None => prefix,
        }
    }
}

/// Concatenates the surviving interpretations of an export, in segment
/// order. `analyses[i]` is the analysis outcome of `segments[i]`: `None`
/// where the engine reported an ambiguity.
pub fn export_concat(segments: &[Segment], analyses: &Vec<Option<AnalysisResult>>) -> (r: Vec<
    Phonem,
>)
    requires
        segments@.len() == analyses@.len(),
    ensures
        r@ == export_selection(segments@, analyses@),
{
    let mut r: Vec<Phonem> = Vec::new();
    let mut i: usize = 0;
    while i < segments.len()
        invariant
            segments@.len() == analyses@.len(),
            i <= segments@.len(),
            r@ == export_selection(segments@.take(i as int), analyses@.take(i as int)),
        decreases segments@.len() - i,
    {
        let ghost r_prev = r@;
        let ghost i0 = i as int;
        match &analyses[i] {
            Some(res) => {
                match select_combo(res, segments[i].combo_index) {
                    Some(combo) => {
                        let mut j: usize = 0;
                        while j < combo.len()
                            invariant
                                j <= combo@.len(),
                                r@ == r_prev + combo@.take(j as int),
                            decreases combo@.len() - j,
                        {
                            r.push(combo[j]);
                            proof {
                                assert(combo@.take(j as int).push(combo@[j as int]) =~= combo@.take(
                                    j + 1,
                                ));
                            }
                            j = j + 1;
                        }
                        proof {
                            assert(combo@.take(combo@.len() as int) =~= combo@);
                        }
                    },
                    None => {
                    },
                }
            },
            None => {
            },
        }
        i = i + 1;
        proof {
            let segs_i = segments@.take(i as int);
            let an_i = analyses@.take(i as int);
            assert(segs_i.drop_last() =~= segments@.take(i0));
            assert(an_i.drop_last() =~= analyses@.take(i0));
            assert(segs_i.last() == segments@[i0]);
            assert(an_i.last() == analyses@[i0]);
            assert(r@ =~= export_selection(segs_i, an_i));
        }
    }
    proof {
        assert(segments@.take(segments@.len() as int) =~= segments@);
        assert(analyses@.take(analyses@.len() as int) =~= analyses@);
    }
    r
}

/// The digest that tags a finished render: every sentence followed by its
/// interpretation index, concatenated in segment order, so that two exports
/// of identical segment state carry the same tag.
pub open spec fn segments_digest(segs: Seq<Segment>) -> Seq<char>
    decreases segs.len(),
{
    if segs.len() == 0 {
        Seq::empty()
    } else {
        segments_digest(segs.drop_last()) + segs.last().sentence@ + dec_str(
            segs.last().combo_index as nat,
        )
    }
}

/// Renders the digest of a segment list.
pub fn hash_segments(segments: &[Segment]) -> (r: String)
    ensures
        r@ == segments_digest(segments@),
{
    let mut s = String::new();
    let mut i: usize = 0;
    while i < segments.len()
        invariant
            i <= segments@.len(),
            s@ == segments_digest(segments@.take(i as int)),
        decreases segments@.len() - i,
    {
        s.append(segments[i].sentence.as_str());
        crate::text::push_decimal(&mut s, segments[i].combo_index as u64);
        i = i + 1;
        proof {
            assert(segments@.take(i as int).drop_last() =~= segments@.take(i - 1));
            assert(segments@.take(i as int).last() == segments@[i - 1]);
        }
    }
    proof {
        assert(segments@.take(segments@.len() as int) =~= segments@);
    }
    s
}

/// One preview a joining client may be owed: the segment it belongs to and
/// the content-addressed file stem its artifact would live under. Whether
/// the artifact actually exists on disk only the outside can tell.
pub struct PreviewJob {
    pub segment: Segment,
    pub file_name: String,
}

/// The preview plan owed to a joining client, aligned with the project's
/// segments: an entry exists exactly for the segments whose analysis is
/// already cached and whose chosen interpretation is in range. Segments
/// not yet analyzable are silently omitted; nothing waits or computes.
pub fn join_preview_plan(cache: &AnalysisCache, project: &Project) -> (r: Vec<Option<PreviewJob>>)
    requires
        cache.wf(),
    ensures
        r@.len() == project.segments@.len(),
        forall|i: int|
            0 <= i < project.segments@.len() ==> (((#[trigger] r@[i]) is Some) <==> (cache_has(
                cache.entries@,
                (project.seed@, cat_ids(project.video_ids@), project.segments@[i].sentence@),
            ) && (project.segments@[i].combo_index as int) < cache_at(
                cache.entries@,
                (project.seed@, cat_ids(project.video_ids@), project.segments@[i].sentence@),
            )@.len())),
        forall|i: int|
            0 <= i < project.segments@.len() ==> ((#[trigger] r@[i]) matches Some(job) ==> (
            job.segment == project.segments@[i] && job.file_name@ == dec_str(
                artifact_hash(
                    cat_ids(project.video_ids@),
                    cache_at(
                        cache.entries@,
                        (
                            project.seed@,
                            cat_ids(project.video_ids@),
                            project.segments@[i].sentence@,
                        ),
                    )@[project.segments@[i].combo_index as int]@,
                ) as nat,
            ))),
{
    let mut r: Vec<Option<PreviewJob>> = Vec::new();
    let mut i: usize = 0;
    while i < project.segments.len()
        invariant
            cache.wf(),
            i <= project.segments@.len(),
            r@.len() == i,
            forall|k: int|
                0 <= k < i ==> (((#[trigger] r@[k]) is Some) <==> (cache_has(
                    cache.entries@,
                    (project.seed@, cat_ids(project.video_ids@), project.segments@[k].sentence@),
                ) && (project.segments@[k].combo_index as int) < cache_at(
                    cache.entries@,
                    (project.seed@, cat_ids(project.video_ids@), project.segments@[k].sentence@),
                )@.len())),
            forall|k: int|
                0 <= k < i ==> ((#[trigger] r@[k]) matches Some(job) ==> (job.segment
                    == project.segments@[k] && job.file_name@ == dec_str(
                    artifact_hash(
                        cat_ids(project.video_ids@),
                        cache_at(
                            cache.entries@,
                            (
                                project.seed@,
                                cat_ids(project.video_ids@),
                                project.segments@[k].sentence@,
                            ),
                        )@[project.segments@[k].combo_index as int]@,
                    ) as nat,
                ))),
        decreases project.segments@.len() - i,
    {
        let segment = &project.segments[i];
        let entry = match cache.analyze_cached(project, segment.sentence.as_str()) {
            Some(res) => {
                match select_combo(res, segment.combo_index) {
                    Some(combo) => {
                        let pid = PreviewId::from_project_sentence(
                            project.video_ids.as_slice(),
                            combo.as_slice(),
                        );
                        Some(PreviewJob { segment: segment.duplicate(), file_name: pid.file_name() })
                    },
                    None => None,
                }
            },
            None => None,
        };
        r.push(entry);
        i = i + 1;
    }
    r
}

} // verus!
