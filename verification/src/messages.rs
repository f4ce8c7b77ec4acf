//! The message vocabulary: requests decoded from clients, events sent to
//! sessions, and the pairing of an event with its exact recipient set.

use vstd::prelude::*;

use crate::data::{Project, ProjectId, Seed, Segment, YoutubeId};
use crate::error::DownloadVideoStatus;

verus! {

/// Session identity assigned at connect time; the registry key.
pub type SessionId = usize;

/// Client identity used for project membership. Coincides with the
/// session id of the connection the client acts through.
pub type ClientId = usize;

/// One inbound request, decoded from a client envelope. The acting client's
/// identity comes from the transport session, never from the body.
pub enum ClientRequest {
    ListProjects,
    CreateProject { project_name: ProjectId, seed: Seed, urls: Vec<String> },
    DeleteProject { project_name: ProjectId },
    JoinProject { project_name: ProjectId },
    CreateSegment { project_name: ProjectId, segment_sentence: String, position: u16 },
    ModifySegmentSentence { project_name: ProjectId, segment_position: u16, new_sentence: String },
    ModifySegmentComboIndex {
        project_name: ProjectId,
        segment_position: u16,
        new_combo_index: u16,
    },
    RemoveSegment { project_name: ProjectId, segment_position: u16 },
    Export { project_name: ProjectId },
}

/// One already-rendered preview, delivered in a batch to a joining client.
pub struct Preview {
    pub segment: Segment,
    pub data: String,
}

/// One outbound event, as delivered to a session.
pub enum ServerRequest {
    JoinedUsers { users: Vec<ClientId> },
    UserJoinedProject { user: ClientId },
    UserLeftProject { user: ClientId },
    Preview { data: String, segment: Segment },
    Previews { previews: Vec<Preview> },
    ChangeProject {
        seed: Seed,
        video_urls: Vec<YoutubeId>,
        name: ProjectId,
        segments: Vec<Segment>,
    },
    ChangeProjectName { new_name: ProjectId },
    NewProject { project: Project },
    RemoveProject { name: ProjectId },
    NewSegment { segment: Segment, row: usize },
    RemoveSegment { row: usize },
    ChangeComboIndex { row: usize, combo_index: u16 },
    ChangeSentence { row: usize, sentence: String },
    ChangeListProjects { projects: Vec<Project> },
    RenderResult { hash: String, data: String },
    AmbiguityToken { row: usize, token: String },
    UpdateDownloadStatus { status: DownloadVideoStatus, project_id: ProjectId },
}

/// One delivery order: this event goes to exactly these sessions.
pub struct Outgoing {
    pub targets: Vec<SessionId>,
    pub message: ServerRequest,
}

} // verus!
