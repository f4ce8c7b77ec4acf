use sentence_mixer::error::ServerError;
use sentence_mixer::messages::ServerRequest;
use sentence_mixer::sm_actor::SmActor;

fn demo_actor() -> SmActor {
    let mut actor = SmActor::new();
    actor.connect_with_id(1);
    actor.connect_with_id(2);
    actor
}

#[test]
fn create_project_stores_seed_videos_and_empty_segments() {
    let mut actor = demo_actor();
    let eff = actor
        .handle_create_project(1, "demo".to_string(), "4".to_string(), &["v1".to_string()])
        .unwrap();
    assert_eq!(actor.projects.len(), 1);
    assert_eq!(actor.projects[0].name, "demo");
    assert_eq!(actor.projects[0].seed, "4");
    assert_eq!(actor.projects[0].video_ids.len(), 1);
    assert_eq!(actor.projects[0].video_ids[0].id, "v1");
    assert!(actor.projects[0].segments.is_empty());
    assert_eq!(eff.messages.len(), 4);
    // the creation event goes to every connected session
    assert_eq!(eff.messages[0].targets, vec![1, 2]);
    match &eff.messages[0].message {
        ServerRequest::NewProject { project } => assert_eq!(project.name, "demo"),
        _ => panic!("expected the project creation event first"),
    }
    // the private join pair goes to the creator only
    assert_eq!(eff.messages[1].targets, vec![1]);
    assert_eq!(eff.messages[2].targets, vec![1]);
    // nobody else is on a fresh project
    assert!(eff.messages[3].targets.is_empty());
    // the downloader is asked for the project's whole video set
    assert_eq!(eff.download.len(), 1);
    assert_eq!(eff.download[0].id, "v1");
}

#[test]
fn duplicate_create_fails_and_leaves_project_unchanged() {
    let mut actor = demo_actor();
    actor
        .handle_create_project(1, "demo".to_string(), "4".to_string(), &["v1".to_string()])
        .unwrap();
    actor
        .handle_create_segment("demo".to_string(), "hello".to_string(), 0)
        .unwrap();
    let r = actor.handle_create_project(
        2,
        "demo".to_string(),
        "9".to_string(),
        &["other".to_string()],
    );
    assert!(matches!(r, Err(ServerError::ProjectAlreadyExists)));
    // the existing project's seed, videos and segments are untouched
    assert_eq!(actor.projects.len(), 1);
    assert_eq!(actor.projects[0].seed, "4");
    assert_eq!(actor.projects[0].video_ids[0].id, "v1");
    assert_eq!(actor.projects[0].segments.len(), 1);
    assert_eq!(actor.projects[0].segments[0].sentence, "hello");
}

#[test]
fn duplicate_join_fails_and_keeps_membership_size() {
    let mut actor = demo_actor();
    actor
        .handle_create_project(1, "demo".to_string(), "4".to_string(), &["v1".to_string()])
        .unwrap();
    actor.handle_join_project(2, "demo".to_string()).unwrap();
    let before = actor.editing_sessions[0].members.len();
    let r = actor.handle_join_project(2, "demo".to_string());
    assert!(matches!(r, Err(ServerError::UserAlreadyJoinedProject)));
    assert_eq!(actor.editing_sessions[0].members.len(), before);
}

#[test]
fn join_unknown_project_fails() {
    let mut actor = demo_actor();
    let r = actor.handle_join_project(1, "ghost".to_string());
    assert!(matches!(r, Err(ServerError::ProjectDoesNotExist)));
}

#[test]
fn join_sends_membership_snapshot_and_notice() {
    let mut actor = demo_actor();
    actor
        .handle_create_project(1, "demo".to_string(), "4".to_string(), &["v1".to_string()])
        .unwrap();
    actor
        .handle_create_segment("demo".to_string(), "first".to_string(), 0)
        .unwrap();
    let eff = actor.handle_join_project(2, "demo".to_string()).unwrap();
    assert_eq!(eff.messages.len(), 3);
    assert_eq!(eff.messages[0].targets, vec![2]);
    match &eff.messages[0].message {
        ServerRequest::JoinedUsers { users } => assert_eq!(users, &vec![1]),
        _ => panic!("expected the prior membership list first"),
    }
    assert_eq!(eff.messages[1].targets, vec![2]);
    match &eff.messages[1].message {
        ServerRequest::ChangeProject { seed, name, segments, .. } => {
            assert_eq!(seed, "4");
            assert_eq!(name, "demo");
            assert_eq!(segments.len(), 1);
            assert_eq!(segments[0].sentence, "first");
        }
        _ => panic!("expected the full project snapshot second"),
    }
    // the join notice goes to the other members only
    assert_eq!(eff.messages[2].targets, vec![1]);
    match &eff.messages[2].message {
        ServerRequest::UserJoinedProject { user } => assert_eq!(*user, 2),
        _ => panic!("expected the join notice third"),
    }
}

#[test]
fn create_segment_at_len_appends() {
    let mut actor = demo_actor();
    actor
        .handle_create_project(1, "demo".to_string(), "4".to_string(), &["v1".to_string()])
        .unwrap();
    actor
        .handle_create_segment("demo".to_string(), "one".to_string(), 0)
        .unwrap();
    // position == len(segments) appends and grows the list by exactly one
    let before = actor.projects[0].segments.len();
    actor
        .handle_create_segment("demo".to_string(), "two".to_string(), 1)
        .unwrap();
    assert_eq!(actor.projects[0].segments.len(), before + 1);
    assert_eq!(actor.projects[0].segments[1].sentence, "two");
    assert_eq!(actor.projects[0].segments[1].combo_index, 0);
}

#[test]
fn create_segment_past_len_fails_and_leaves_segments_unchanged() {
    let mut actor = demo_actor();
    actor
        .handle_create_project(1, "demo".to_string(), "4".to_string(), &["v1".to_string()])
        .unwrap();
    actor
        .handle_create_segment("demo".to_string(), "one".to_string(), 0)
        .unwrap();
    let r = actor.handle_create_segment("demo".to_string(), "far".to_string(), 2);
    assert!(matches!(r, Err(ServerError::SegmentOutOfBounds)));
    assert_eq!(actor.projects[0].segments.len(), 1);
    assert_eq!(actor.projects[0].segments[0].sentence, "one");
}

#[test]
fn segment_inserts_shift_later_rows() {
    let mut actor = demo_actor();
    actor
        .handle_create_project(1, "demo".to_string(), "4".to_string(), &["v1".to_string()])
        .unwrap();
    actor
        .handle_create_segment("demo".to_string(), "b".to_string(), 0)
        .unwrap();
    actor
        .handle_create_segment("demo".to_string(), "a".to_string(), 0)
        .unwrap();
    assert_eq!(actor.projects[0].segments[0].sentence, "a");
    assert_eq!(actor.projects[0].segments[1].sentence, "b");
}

#[test]
fn modify_and_remove_at_or_past_len_fail_without_mutation() {
    let mut actor = demo_actor();
    actor
        .handle_create_project(1, "demo".to_string(), "4".to_string(), &["v1".to_string()])
        .unwrap();
    actor
        .handle_create_segment("demo".to_string(), "one".to_string(), 0)
        .unwrap();
    let r = actor.handle_modify_segment_sentence("demo".to_string(), 1, "x".to_string());
    assert!(matches!(r, Err(ServerError::SegmentOutOfBounds)));
    let r = actor.handle_modify_segment_combo_index("demo".to_string(), 1, 3);
    assert!(matches!(r, Err(ServerError::SegmentOutOfBounds)));
    let r = actor.handle_remove_segment("demo".to_string(), 1);
    assert!(matches!(r, Err(ServerError::SegmentOutOfBounds)));
    assert_eq!(actor.projects[0].segments.len(), 1);
    assert_eq!(actor.projects[0].segments[0].sentence, "one");
    assert_eq!(actor.projects[0].segments[0].combo_index, 0);
}

#[test]
fn modify_segment_sentence_keeps_combo_index() {
    let mut actor = demo_actor();
    actor
        .handle_create_project(1, "demo".to_string(), "4".to_string(), &["v1".to_string()])
        .unwrap();
    actor
        .handle_create_segment("demo".to_string(), "one".to_string(), 0)
        .unwrap();
    actor
        .handle_modify_segment_combo_index("demo".to_string(), 0, 5)
        .unwrap();
    let eff = actor
        .handle_modify_segment_sentence("demo".to_string(), 0, "new text".to_string())
        .unwrap();
    assert_eq!(actor.projects[0].segments[0].sentence, "new text");
    assert_eq!(actor.projects[0].segments[0].combo_index, 5);
    match &eff.broadcast.message {
        ServerRequest::ChangeSentence { row, sentence } => {
            assert_eq!(*row, 0);
            assert_eq!(sentence, "new text");
        }
        _ => panic!("expected the sentence change event"),
    }
    assert!(eff.preview.is_some());
}

#[test]
fn remove_segment_broadcasts_row_and_shrinks() {
    let mut actor = demo_actor();
    actor
        .handle_create_project(1, "demo".to_string(), "4".to_string(), &["v1".to_string()])
        .unwrap();
    actor
        .handle_create_segment("demo".to_string(), "one".to_string(), 0)
        .unwrap();
    actor
        .handle_create_segment("demo".to_string(), "two".to_string(), 1)
        .unwrap();
    let out = actor.handle_remove_segment("demo".to_string(), 0).unwrap();
    match &out.message {
        ServerRequest::RemoveSegment { row } => assert_eq!(*row, 0),
        _ => panic!("expected the removal event"),
    }
    assert_eq!(actor.projects[0].segments.len(), 1);
    assert_eq!(actor.projects[0].segments[0].sentence, "two");
}

#[test]
fn delete_project_notifies_former_members_and_unknown_name_fails() {
    let mut actor = demo_actor();
    actor
        .handle_create_project(1, "demo".to_string(), "4".to_string(), &["v1".to_string()])
        .unwrap();
    actor.handle_join_project(2, "demo".to_string()).unwrap();
    let out = actor.handle_delete_project("demo".to_string()).unwrap();
    assert_eq!(out.targets, vec![1, 2]);
    match &out.message {
        ServerRequest::RemoveProject { name } => assert_eq!(name, "demo"),
        _ => panic!("expected the project removal event"),
    }
    assert!(actor.projects.is_empty());
    // a second delete now fails: the project no longer exists
    let r = actor.handle_delete_project("demo".to_string());
    assert!(matches!(r, Err(ServerError::ProjectDoesNotExist)));
}

#[test]
fn disconnect_removes_client_from_every_project_set() {
    let mut actor = demo_actor();
    actor.connect_with_id(3);
    actor
        .handle_create_project(1, "p1".to_string(), "4".to_string(), &["v1".to_string()])
        .unwrap();
    actor
        .handle_create_project(3, "p2".to_string(), "4".to_string(), &["v2".to_string()])
        .unwrap();
    actor.handle_join_project(2, "p1".to_string()).unwrap();
    actor.handle_join_project(2, "p2".to_string()).unwrap();
    let out = actor.disconnect(2);
    // the departure notice reaches the remaining members of the projects
    // the client had joined, and never the client itself
    assert!(out.targets.contains(&1));
    assert!(out.targets.contains(&3));
    assert!(!out.targets.contains(&2));
    match &out.message {
        ServerRequest::UserLeftProject { user } => assert_eq!(*user, 2),
        _ => panic!("expected the departure notice"),
    }
    // a subsequent broadcast to either project excludes the departed client
    let p1 = actor.get_all_cloned_recipients_project(&"p1".to_string());
    let p2 = actor.get_all_cloned_recipients_project(&"p2".to_string());
    assert!(!p1.contains(&2));
    assert!(!p2.contains(&2));
    assert_eq!(p1, vec![1]);
    assert_eq!(p2, vec![3]);
    assert!(!actor.sessions.contains(&2));
}

#[test]
fn list_projects_snapshots_every_project() {
    let mut actor = demo_actor();
    actor
        .handle_create_project(1, "a".to_string(), "1".to_string(), &[])
        .unwrap();
    actor
        .handle_create_project(1, "b".to_string(), "2".to_string(), &["u".to_string()])
        .unwrap();
    match actor.list_projects() {
        ServerRequest::ChangeListProjects { projects } => {
            assert_eq!(projects.len(), 2);
            assert_eq!(projects[0].name, "a");
            assert_eq!(projects[1].name, "b");
            assert_eq!(projects[1].video_ids[0].id, "u");
        }
        _ => panic!("expected the listing event"),
    }
}

#[test]
fn blank_sentence_launches_no_preview_pipeline() {
    let mut actor = demo_actor();
    actor
        .handle_create_project(1, "demo".to_string(), "4".to_string(), &["v1".to_string()])
        .unwrap();
    let eff = actor
        .handle_create_segment("demo".to_string(), "  \t ".to_string(), 0)
        .unwrap();
    assert!(eff.preview.is_none());
    let eff = actor
        .handle_create_segment("demo".to_string(), "words".to_string(), 0)
        .unwrap();
    assert!(eff.preview.is_some());
}

#[test]
fn connect_registers_a_fresh_session() {
    let mut actor = SmActor::new();
    let id = actor.connect();
    assert!(actor.sessions.contains(&id));
    // a connection never fails, and the registry is a set
    actor.connect_with_id(id);
    assert_eq!(actor.sessions.iter().filter(|s| **s == id).count(), 1);
}

#[test]
fn create_project_auto_joins_the_creator() {
    let mut actor = demo_actor();
    actor
        .handle_create_project(1, "demo".to_string(), "4".to_string(), &["v1".to_string()])
        .unwrap();
    assert_eq!(actor.editing_sessions.len(), 1);
    assert_eq!(actor.editing_sessions[0].name, "demo");
    assert_eq!(actor.editing_sessions[0].members, vec![1]);
}

#[test]
fn export_snapshot_goes_to_the_member_set() {
    let mut actor = demo_actor();
    actor
        .handle_create_project(1, "demo".to_string(), "4".to_string(), &["v1".to_string()])
        .unwrap();
    actor.handle_join_project(2, "demo".to_string()).unwrap();
    actor
        .handle_create_segment("demo".to_string(), "line".to_string(), 0)
        .unwrap();
    let eff = actor.handle_export("demo".to_string()).unwrap();
    assert_eq!(eff.targets, vec![1, 2]);
    assert_eq!(eff.project.name, "demo");
    assert_eq!(eff.project.segments.len(), 1);
    assert_eq!(eff.project.segments[0].sentence, "line");
}

#[test]
fn segment_ops_on_unknown_project_fail() {
    let mut actor = demo_actor();
    let r = actor.handle_create_segment("nope".to_string(), "x".to_string(), 0);
    assert!(matches!(r, Err(ServerError::ProjectDoesNotExist)));
    let r = actor.handle_export("nope".to_string());
    assert!(matches!(r, Err(ServerError::ProjectDoesNotExist)));
    let r = actor.handle_delete_project("nope".to_string());
    assert!(matches!(r, Err(ServerError::ProjectDoesNotExist)));
}
