//! Synchronisation with git.

use sapphire_workspace::ids::Uuid;
use sapphire_workspace::paths::FsPath;
use sapphire_workspace::sync::config::{SyncBackendKind, SyncConfig};
use sapphire_workspace::sync::error::Error;
use sapphire_workspace::sync::git_sync::{
    conflict_path, push_refspec, relative_path, ssh_username, CommitInfo, Conflict, EntryPath,
    GitAction, GitEvent, GitSync, SshAttempts, SshAvailable, SshMethod, SyncCycle,
};
use sapphire_workspace::workspace::workspace_state::open_configured;

fn path(text: &str) -> FsPath {
    FsPath::from_text(text)
}

#[test]
fn sync_settings() {
    let mut c = SyncConfig::default();
    assert_eq!(c.backend, SyncBackendKind::Auto);
    assert_eq!(c.remote(), "origin");
    assert_eq!(c.sync_interval(), None);
    c.remote = Some("up".to_owned());
    c.sync_interval_minutes = Some(15);
    assert_eq!(c.remote(), "up");
    assert_eq!(c.sync_interval(), Some(900));
}

#[test]
fn commit_messages_name_the_device() {
    let git = GitSync::open(&path("/w"), true).unwrap();
    assert_eq!(git.commit_message(), "auto: sync");
    assert_eq!(git.remote(), "origin");
    let id = Uuid { value: 0x0190_0000_0000_7000_8000_0000_0000_0001 };
    let git = git.with_device_id(id);
    assert_eq!(
        git.commit_message(),
        "auto: sync by [01900000-0000-7000-8000-000000000001]\n\nDevice-Id: 01900000-0000-7000-8000-000000000001\n"
    );
    let e = GitSync::open(&path("/w"), false).unwrap_err();
    assert_eq!(e.message(), "no git repository found at '/w'");
    assert_eq!(GitSync::with_remote(&path("/w"), "up", true).unwrap().remote(), "up");
}

#[test]
fn back_end_follows_the_settings() {
    let mut c = SyncConfig::default();
    assert!(open_configured(&path("/w"), &c, None, false).unwrap().is_none());
    let git = open_configured(&path("/w"), &c, Some(Uuid { value: 3 }), true).unwrap().unwrap();
    assert_eq!(git.search_path().text, "/w");
    assert!(git.commit_message().starts_with("auto: sync by ["));
    c.backend = SyncBackendKind::Disabled;
    assert!(open_configured(&path("/w"), &c, None, true).unwrap().is_none());
    c.backend = SyncBackendKind::Git;
    assert!(open_configured(&path("/w"), &c, None, false).is_err());
}

#[test]
fn files_must_lie_in_the_repository() {
    assert_eq!(relative_path(&path("/w/notes/a.md"), &path("/w/")).unwrap(), b"notes/a.md");
    let e = relative_path(&path("/x/a.md"), &path("/w/")).unwrap_err();
    assert!(matches!(e, Error::PathOutsideWorkdir { .. }));
    assert_eq!(e.message(), "path '/x/a.md' is not inside the working directory '/w/'");
    assert_eq!(Error::BareRepository.message(), "git repository has no working directory (bare repo?)");
    assert_eq!(Error::RemoteNotFound { name: "r".into() }.message(), "remote 'r' not found");
    assert_eq!(Error::Backend { reason: "b".into() }.message(), "b");
}

#[test]
fn files_whose_names_are_no_text() {
    let file = FsPath { raw: b"/w/\xff.md".to_vec(), text: "/w/\u{fffd}.md".to_owned() };
    assert_eq!(relative_path(&file, &path("/w/")).unwrap(), b"\xff.md");
    let root = FsPath { raw: b"/\xfe/".to_vec(), text: "/\u{fffd}/".to_owned() };
    let other = FsPath { raw: b"/\xff/a".to_vec(), text: "/\u{fffd}/a".to_owned() };
    let e = relative_path(&other, &root).unwrap_err();
    assert_eq!(
        e.message(),
        "path '/\u{fffd}/a' is not inside the working directory '/\u{fffd}/'"
    );
    let git = GitSync::open(&root, true).unwrap();
    assert_eq!(git.search_path().raw, b"/\xfe/");
}

const ALL: SshAvailable = SshAvailable { agent: true, ed25519: true, ecdsa: true, rsa: true };

#[test]
fn no_way_to_authenticate_is_tried_twice() {
    let mut a = SshAttempts::new();
    assert!(a.wants_agent());
    let order: Vec<Option<SshMethod>> = (0..6).map(|_| a.next_method(ALL)).collect();
    assert_eq!(
        order,
        vec![
            Some(SshMethod::Agent),
            Some(SshMethod::Ed25519),
            Some(SshMethod::Ecdsa),
            Some(SshMethod::Rsa),
            None,
            None,
        ]
    );
    // Without an agent the first key file is tried at once, and only once.
    let mut b = SshAttempts::new();
    let no_agent = SshAvailable { agent: false, ecdsa: false, ..ALL };
    assert_eq!(b.next_method(no_agent), Some(SshMethod::Ed25519));
    assert!(!b.wants_agent());
    assert_eq!(b.next_method(no_agent), Some(SshMethod::Rsa));
    assert_eq!(b.next_method(no_agent), None);
    assert_eq!(SshMethod::Rsa.key_name(), Some("id_rsa"));
    assert_eq!(SshMethod::Agent.key_name(), None);
    assert_eq!(ssh_username(None), "git");
    assert_eq!(ssh_username(Some("me")), "me");
}

fn commit(id: &str, author_time: i64) -> CommitInfo {
    CommitInfo { id: id.to_owned(), author_time }
}

fn conflict(our: Option<&str>, their: Option<&str>) -> Conflict {
    Conflict {
        our: our.map(|p| EntryPath::Text(p.to_owned())),
        their: their.map(|p| EntryPath::Text(p.to_owned())),
    }
}

fn diverged(our_time: i64, their_time: i64) -> SyncCycle {
    let (mut c, first) = SyncCycle::start();
    assert!(matches!(first, GitAction::Fetch));
    let event = GitEvent::Fetched { head: Some(commit("a", our_time)), remote: commit("b", their_time) };
    assert!(matches!(c.advance(event), GitAction::Analyse { commit } if commit == "b"));
    c
}

#[test]
fn nothing_to_synchronise() {
    let (mut c, _) = SyncCycle::start();
    let event = GitEvent::Fetched { head: None, remote: commit("b", 0) };
    assert!(matches!(c.advance(event), GitAction::Finish));
    let (mut c, _) = SyncCycle::start();
    let event = GitEvent::Fetched { head: Some(commit("b", 1)), remote: commit("b", 2) };
    assert!(matches!(c.advance(event), GitAction::Finish));
}

fn pushes(mut c: SyncCycle, name: Option<&str>, refspec: &str) {
    match c.advance(GitEvent::BranchRead { shorthand: name.map(|n| n.to_owned()) }) {
        GitAction::Push { refspec: r } => assert_eq!(r, refspec),
        other => panic!("unexpected: {other:?}"),
    }
    assert!(matches!(c.advance(GitEvent::Pushed), GitAction::Finish));
}

#[test]
fn a_local_lead_is_pushed() {
    let mut c = diverged(1, 2);
    let event = GitEvent::Analysed { up_to_date: true, fast_forward: true };
    assert!(matches!(c.advance(event), GitAction::ReadBranch));
    pushes(c, Some("dev"), "refs/heads/dev:refs/heads/dev");
}

#[test]
fn a_remote_lead_is_taken_over() {
    let mut c = diverged(1, 2);
    let event = GitEvent::Analysed { up_to_date: false, fast_forward: true };
    assert!(matches!(c.advance(event), GitAction::FastForward { commit } if commit == "b"));
    assert!(matches!(c.advance(GitEvent::FastForwarded), GitAction::ReadBranch));
    pushes(c, None, "refs/heads/main:refs/heads/main");
}

fn resolve(action: GitAction) -> (String, bool) {
    match action {
        GitAction::Resolve { path, ours } => (path, ours),
        other => panic!("unexpected: {other:?}"),
    }
}

fn merge_commit(action: GitAction) -> (String, String, String) {
    match action {
        GitAction::CommitMerge { message, ours, theirs } => (message, ours, theirs),
        other => panic!("unexpected: {other:?}"),
    }
}

fn expected_merge() -> (String, String, String) {
    ("merge: remote sync".to_owned(), "a".to_owned(), "b".to_owned())
}

#[test]
fn conflicts_go_to_the_later_commit() {
    for (ours, theirs, use_ours) in [(5, 4, true), (4, 4, true), (3, 4, false)] {
        let mut c = diverged(ours, theirs);
        let event = GitEvent::Analysed { up_to_date: false, fast_forward: false };
        assert!(matches!(c.advance(event), GitAction::Merge { commit } if commit == "b"));
        let conflicts = vec![conflict(Some("a.md"), Some("b.md")), conflict(None, Some("c.md"))];
        let first = c.advance(GitEvent::Merged { conflicts });
        assert_eq!(resolve(first), ("a.md".to_owned(), use_ours));
        let second = c.advance(GitEvent::Resolved);
        assert_eq!(resolve(second), ("c.md".to_owned(), use_ours));
        assert_eq!(merge_commit(c.advance(GitEvent::Resolved)), expected_merge());
        assert!(matches!(c.advance(GitEvent::Committed), GitAction::ReadBranch));
        pushes(c, Some("main"), "refs/heads/main:refs/heads/main");
    }
}

#[test]
fn a_merge_without_conflicts_is_committed() {
    let mut c = diverged(1, 2);
    c.advance(GitEvent::Analysed { up_to_date: false, fast_forward: false });
    let next = c.advance(GitEvent::Merged { conflicts: vec![] });
    assert_eq!(merge_commit(next), expected_merge());
}

#[test]
fn paths_of_conflicts() {
    assert_eq!(conflict_path(&conflict(None, None)), "");
    let odd = Conflict { our: Some(EntryPath::NotText), their: Some(EntryPath::Text("x".into())) };
    assert_eq!(conflict_path(&odd), "");
    assert_eq!(push_refspec(Some("x")), "refs/heads/x:refs/heads/x");
}
