//! The data model: projects, segments, video references, phoneme spans, and
//! the content-addressed identifiers of analyses and rendered artifacts.

use vstd::prelude::*;

use crate::text::{dec_str, decimal_string, mix, mix_chars, mix_string, mix_word};

verus! {

/// Name of a project; its identity in the project store.
pub type ProjectId = String;

/// Parameter influencing how the analysis engine interprets a sentence.
pub type Seed = String;

/// A source video reference, as given by the client.
#[derive(Debug)]
pub struct YoutubeId {
    pub id: String,
}

impl YoutubeId {
    pub fn new(url: String) -> (r: YoutubeId)
        ensures
            r.id@ == url@,
    {
        YoutubeId { id: url }
    }

    /// An equal, independently owned copy.
    pub fn duplicate(&self) -> (r: YoutubeId)
        ensures
            r == *self,
    {
        YoutubeId { id: self.id.clone() }
    }
}

/// A locally available, fully transcoded source video. Created by the
/// downloader once the external fetch and both transcodes have succeeded;
/// the two derivative files are found under names derived from the id.
#[derive(Debug)]
pub struct Video {
    pub id: YoutubeId,
}

impl Video {
    pub fn new(id: YoutubeId) -> (r: Video)
        ensures
            r.id == id,
    {
        Video { id }
    }

    pub fn duplicate(&self) -> (r: Video)
        ensures
            r == *self,
    {
        Video { id: self.id.duplicate() }
    }
}

/// The file stem of a video's local derivative: the id itself for the
/// full-resolution file, the id with a `_small` suffix for the reduced one.
pub fn video_file_stem(yt_id: &str, small: bool) -> (r: String)
    ensures
        small ==> r@ == yt_id@ + "_small"@,
        !small ==> r@ == yt_id@,
{
    let mut s = yt_id.to_owned();
    if small {
        s.append("_small");
    }
    s
}

/// One span of one source video, at millisecond precision: the slice of
/// video `video_index` from `start_ms` to `end_ms`.
#[derive(Debug, Clone, Copy, PartialEq, Eq, Structural)]
pub struct Phonem {
    pub video_index: u8,
    pub start_ms: u64,
    pub end_ms: u64,
}

impl Phonem {
    /// A span never ends before it starts.
    pub open spec fn wf(self) -> bool {
        self.start_ms <= self.end_ms
    }
}

/// One concrete phoneme-level interpretation of a sentence: ordered spans.
pub type Combo = Vec<Phonem>;

/// All interpretations the analysis engine offered for one sentence.
pub type AnalysisResult = Vec<Combo>;

/// One line of text in a project plus the index of the chosen interpretation.
#[derive(Debug)]
pub struct Segment {
    pub sentence: String,
    pub combo_index: u16,
}

impl Segment {
    /// A fresh segment starts at the first interpretation.
    pub fn new(sentence: &str) -> (r: Segment)
        ensures
            r.sentence@ == sentence@,
            r.combo_index == 0,
    {
        Segment { sentence: sentence.to_owned(), combo_index: 0 }
    }

    pub fn duplicate(&self) -> (r: Segment)
        ensures
            r == *self,
    {
        Segment { sentence: self.sentence.clone(), combo_index: self.combo_index }
    }
}

/// A shared project: a seed, an ordered list of source videos, and an
/// ordered list of segments. Identity is `name`.
#[derive(Debug)]
pub struct Project {
    pub seed: Seed,
    pub video_ids: Vec<YoutubeId>,
    pub name: ProjectId,
    pub segments: Vec<Segment>,
}

impl Project {
    /// A new project holds the given videos, in order, and no segments.
    pub fn new(name: &str, seed: &str, video_urls: &[String]) -> (r: Project)
        ensures
            r.name@ == name@,
            r.seed@ == seed@,
            r.video_ids@.len() == video_urls@.len(),
            forall|i: int|
                0 <= i < video_urls@.len() ==> r.video_ids@[i].id@ == video_urls@[i]@,
            r.segments@.len() == 0,
    {
        let mut video_ids: Vec<YoutubeId> = Vec::new();
        let mut i: usize = 0;
        while i < video_urls.len()
            invariant
                i <= video_urls@.len(),
                video_ids@.len() == i,
                forall|j: int| 0 <= j < i ==> video_ids@[j].id@ == video_urls@[j]@,
            decreases video_urls@.len() - i,
        {
            video_ids.push(YoutubeId::new(video_urls[i].clone()));
            i = i + 1;
        }
        Project {
            name: name.to_owned(),
            seed: seed.to_owned(),
            video_ids,
            segments: Vec::new(),
        }
    }

    pub fn duplicate(&self) -> (r: Project)
        ensures
            r.seed == self.seed,
            r.name == self.name,
            r.video_ids@ == self.video_ids@,
            r.segments@ == self.segments@,
    {
        let mut video_ids: Vec<YoutubeId> = Vec::new();
        let mut i: usize = 0;
        while i < self.video_ids.len()
            invariant
                i <= self.video_ids@.len(),
                video_ids@ =~= self.video_ids@.take(i as int),
            decreases self.video_ids@.len() - i,
        {
            video_ids.push(self.video_ids[i].duplicate());
            i = i + 1;
        }
        let mut segments: Vec<Segment> = Vec::new();
        let mut j: usize = 0;
        while j < self.segments.len()
            invariant
                j <= self.segments@.len(),
                segments@ =~= self.segments@.take(j as int),
            decreases self.segments@.len() - j,
        {
            segments.push(self.segments[j].duplicate());
            j = j + 1;
        }
        proof {
            assert(video_ids@ =~= self.video_ids@);
            assert(segments@ =~= self.segments@);
        }
        Project { seed: self.seed.clone(), video_ids, name: self.name.clone(), segments }
    }
}

/// The concatenation of the ids of a video list, in order.
pub open spec fn cat_ids(ids: Seq<YoutubeId>) -> Seq<char>
    decreases ids.len(),
{
    if ids.len() == 0 {
        Seq::empty()
    } else {
        cat_ids(ids.drop_last()) + ids.last().id@
    }
}

/// Joins the ids of a video list into one string, in order.
pub fn join_ids(ids: &[YoutubeId]) -> (r: String)
    ensures
        r@ == cat_ids(ids@),
{
    let mut s = String::new();
    let mut i: usize = 0;
    while i < ids.len()
        invariant
            i <= ids@.len(),
            s@ == cat_ids(ids@.take(i as int)),
        decreases ids@.len() - i,
    {
        s.append(ids[i].id.as_str());
        i = i + 1;
        proof {
            assert(ids@.take(i as int).drop_last() =~= ids@.take(i - 1));
            assert(ids@.take(i as int).last() == ids@[i - 1]);
        }
    }
    proof {
        assert(ids@.take(ids@.len() as int) =~= ids@);
    }
    s
}

/// The memoization key of one analysis: the project's seed, the
/// concatenation of its video ids in project order, and the sentence.
#[derive(Debug)]
pub struct AnalysisId(pub Seed, pub String, pub String);

impl AnalysisId {
    pub fn from_project_sentence(project: &Project, sentence: &str) -> (r: AnalysisId)
        ensures
            r.0@ == project.seed@,
            r.1@ == cat_ids(project.video_ids@),
            r.2@ == sentence@,
    {
        AnalysisId(
            project.seed.clone(),
            join_ids(project.video_ids.as_slice()),
            sentence.to_owned(),
        )
    }

    /// Whether two keys name the same analysis.
    pub fn key_eq(&self, other: &AnalysisId) -> (r: bool)
        ensures
            r == (self.0@ == other.0@ && self.1@ == other.1@ && self.2@ == other.2@),
    {
        self.0 == other.0 && self.1 == other.1 && self.2 == other.2
    }
}

/// The analysis engine found a word it cannot interpret.
#[derive(Debug)]
pub struct AmbiguityError {
    pub word: String,
}

impl AmbiguityError {
    /// A human-readable account of the error.
    pub fn message(&self) -> (r: String)
        ensures
            r@ == "\""@ + self.word@ + "\" is ambiguous"@,
    {
        let mut s = String::from_str("\"");
        s.append(self.word.as_str());
        s.append("\" is ambiguous");
        s
    }
}

/// Initial state of the artifact-name mixing hash.
pub const ARTIFACT_HASH_BASIS: u64 = 0xcbf29ce484222325;

/// The hash state folded over the three words of every span, in order.
pub open spec fn mix_phonems(h: u64, ps: Seq<Phonem>) -> u64
    decreases ps.len(),
{
    if ps.len() == 0 {
        h
    } else {
        mix(
            mix(
                mix(mix_phonems(h, ps.drop_last()), ps.last().video_index as u64),
                ps.last().start_ms,
            ),
            ps.last().end_ms,
        )
    }
}

/// The content hash that names the artifact of `ps` rendered over the video
/// set whose concatenated ids are `ids_cat`.
pub open spec fn artifact_hash(ids_cat: Seq<char>, ps: Seq<Phonem>) -> u64 {
    mix_phonems(mix_chars(ARTIFACT_HASH_BASIS, ids_cat), ps)
}

/// Identifies a preview or final-render artifact: a content address over the
/// video set and the exact phoneme span sequence. Equal inputs always map to
/// the same file name, so an existing artifact is reused, never recomputed.
#[derive(Debug)]
pub struct PreviewId(pub String, pub Vec<Phonem>);

impl PreviewId {
    pub fn from_project_sentence(yt_ids: &[YoutubeId], phonems: &[Phonem]) -> (r: PreviewId)
        ensures
            r.0@ == cat_ids(yt_ids@),
            r.1@ == phonems@,
    {
        let mut ps: Vec<Phonem> = Vec::new();
        let mut i: usize = 0;
        while i < phonems.len()
            invariant
                i <= phonems@.len(),
                ps@ =~= phonems@.take(i as int),
            decreases phonems@.len() - i,
        {
            ps.push(phonems[i]);
            i = i + 1;
        }
        proof {
            assert(ps@ =~= phonems@);
        }
        PreviewId(join_ids(yt_ids), ps)
    }

    /// The artifact's file stem: the decimal rendering of the content hash.
    pub fn file_name(&self) -> (r: String)
        ensures
            r@ == dec_str(artifact_hash(self.0@, self.1@) as nat),
    {
        let mut h = mix_string(ARTIFACT_HASH_BASIS, self.0.as_str());
        let mut i: usize = 0;
        while i < self.1.len()
            invariant
                i <= self.1@.len(),
                h == mix_phonems(mix_chars(ARTIFACT_HASH_BASIS, self.0@), self.1@.take(i as int)),
            decreases self.1@.len() - i,
        {
            let p = self.1[i];
            h = mix_word(h, p.video_index as u64);
            h = mix_word(h, p.start_ms);
            h = mix_word(h, p.end_ms);
            i = i + 1;
            proof {
                assert(self.1@.take(i as int).drop_last() =~= self.1@.take(i - 1));
                assert(self.1@.take(i as int).last() == self.1@[i - 1]);
            }
        }
        proof {
            assert(self.1@.take(self.1@.len() as int) =~= self.1@);
        }
        decimal_string(h)
    }
}

} // verus!
