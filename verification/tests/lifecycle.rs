use std::hash::{Hash, Hasher};

use my_agent::daemon::lifecycle::{
    DaemonStatus, EnsureAction, EnsureDaemon, EnsureEvent, ReadyMarker, RuntimePaths, StatusStep,
    executable_fingerprint, read_pid, ready_marker_matches, stable_workspace_hash,
    startup_lock_is_stale, status_of_process,
};

#[test]
fn workspace_hash_is_deterministic() {
    let path = "/tmp/example";
    assert_eq!(stable_workspace_hash(path), stable_workspace_hash(path));
    assert_ne!(stable_workspace_hash(path), stable_workspace_hash("/tmp/other"));
}

struct Fnv(u64);

impl Hasher for Fnv {
    fn finish(&self) -> u64 {
        self.0
    }

    fn write(&mut self, bytes: &[u8]) {
        for byte in bytes {
            self.0 ^= u64::from(*byte);
            self.0 = self.0.wrapping_mul(0x0000_0100_0000_01b3);
        }
    }
}

#[test]
fn workspace_hash_is_the_hash_of_the_path() {
    for path in [
        "", "/", "/tmp/example", "/tmp/other", "relative/path", "/a//b", "/a/./b", "/a/b/", "./a",
        "/.", "a/..", "/tmp/./", "/项目/示例", ".", "..", "a/./", "//",
    ] {
        let mut hasher = Fnv(0xcbf2_9ce4_8422_2325);
        std::path::Path::new(path).hash(&mut hasher);
        assert_eq!(stable_workspace_hash(path), hasher.finish(), "{path}");
    }
}

#[test]
fn fingerprints_follow_the_bytes() {
    assert_eq!(executable_fingerprint(&Vec::new()), "cbf29ce484222325-0");
    assert_eq!(executable_fingerprint(&b"a".to_vec()), "af63dc4c8601ec8c-1");
    let mut hasher = Fnv(0xcbf2_9ce4_8422_2325);
    hasher.write(b"some bytes \xff");
    assert_eq!(
        executable_fingerprint(&b"some bytes \xff".to_vec()),
        format!("{:016x}-12", hasher.finish())
    );
}

#[test]
fn workspace_paths_are_stable_and_isolated() {
    let first = RuntimePaths::for_workspace("/w", None, "/tmp");
    let second = RuntimePaths::for_workspace("/w", None, "/tmp");

    assert_eq!(first.socket, second.socket);
    assert!(first.socket.ends_with("daemon.sock"));
    assert!(first.directory.starts_with("/tmp"));
    assert_eq!(first.log, "/w/.my-agent/daemon.log");
    assert_ne!(RuntimePaths::for_workspace("/v", None, "/tmp").directory, first.directory);
    let configured = RuntimePaths::for_workspace("/w", Some("/run/agent"), "/tmp");
    assert!(configured.directory.starts_with("/run/agent"));
    assert_eq!(
        first.cleanup(),
        [
            first.socket.as_str(),
            first.pid.as_str(),
            first.ready.as_str(),
            first.startup_lock.as_str()
        ]
    );
    let test = RuntimePaths::for_test("/d");
    assert_eq!(test.socket, "/d/daemon.sock");
}

#[test]
fn ready_marker_fingerprint_distinguishes_legacy_daemons() {
    let mut marker = ReadyMarker {
        pid: 7,
        workspace: "/w".to_owned(),
        version: "0.1.0".to_owned(),
        executable_fingerprint: None,
    };
    assert!(!ready_marker_matches(Some(&marker), "0.1.0", Some("f")));

    marker.executable_fingerprint = Some("f".to_owned());
    assert!(ready_marker_matches(Some(&marker), "0.1.0", Some("f")));
    assert!(!ready_marker_matches(Some(&marker), "0.2.0", Some("f")));
    assert!(!ready_marker_matches(Some(&marker), "0.1.0", Some("g")));
    assert!(!ready_marker_matches(Some(&marker), "0.1.0", None));
    assert!(!ready_marker_matches(None, "0.1.0", Some("f")));
}

#[test]
fn state_of_the_daemon_is_told_by_its_files() {
    assert_eq!(
        RuntimePaths::status(true, Some(5), true, true),
        StatusStep::Known(DaemonStatus::Ready { pid: 5 })
    );
    assert_eq!(
        RuntimePaths::status(true, None, true, true),
        StatusStep::Known(DaemonStatus::Ready { pid: 0 })
    );
    assert_eq!(
        RuntimePaths::status(false, Some(5), true, false),
        StatusStep::Known(DaemonStatus::Stale { pid: Some(5) })
    );
    assert_eq!(RuntimePaths::status(false, Some(5), false, false), StatusStep::Ask(5));
    assert_eq!(status_of_process(5, true), DaemonStatus::Starting { pid: Some(5) });
    assert_eq!(status_of_process(5, false), DaemonStatus::Stale { pid: Some(5) });
    assert_eq!(
        RuntimePaths::status(false, None, false, false),
        StatusStep::Known(DaemonStatus::Stopped)
    );
    assert_eq!(
        RuntimePaths::status(false, None, false, true),
        StatusStep::Known(DaemonStatus::Stale { pid: None })
    );
    assert_eq!(read_pid(" 42\n"), Some(42));
    assert_eq!(read_pid("x"), None);
    assert!(!startup_lock_is_stale(None));
    assert!(!startup_lock_is_stale(Some(1)));
    assert!(startup_lock_is_stale(Some(1_000_000)));
}

#[test]
fn ready_daemon_of_the_same_build_is_used() {
    let (mut ensure, action) = EnsureDaemon::start(&RuntimePaths::for_test("/d"));
    assert_eq!(action, EnsureAction::AskStatus);
    let ready = EnsureEvent::Status(DaemonStatus::Ready { pid: 5 });
    assert_eq!(ensure.ensure_daemon(ready), EnsureAction::CompareMarker);
    assert_eq!(ensure.ensure_daemon(EnsureEvent::Matches(true)), EnsureAction::Finish);
}

#[test]
fn daemon_of_another_build_is_replaced() {
    let (mut ensure, _) = EnsureDaemon::start(&RuntimePaths::for_test("/d"));
    let stopped = EnsureEvent::Status(DaemonStatus::Stopped);
    let ready = EnsureEvent::Status(DaemonStatus::Ready { pid: 5 });
    ensure.ensure_daemon(ready);
    assert_eq!(ensure.ensure_daemon(EnsureEvent::Matches(false)), EnsureAction::RequestStop);
    assert_eq!(ensure.ensure_daemon(EnsureEvent::Done), EnsureAction::AskStatus);
    assert_eq!(ensure.ensure_daemon(ready), EnsureAction::Wait);
    assert_eq!(ensure.ensure_daemon(EnsureEvent::Done), EnsureAction::AskStatus);
    let mut action = ensure.ensure_daemon(stopped);
    let mut spawned = 0;
    for _ in 0..20 {
        action = match action {
            EnsureAction::AskStatus if spawned == 1 => ensure.ensure_daemon(ready),
            EnsureAction::AskStatus => ensure.ensure_daemon(stopped),
            EnsureAction::TakeLock => ensure.ensure_daemon(EnsureEvent::Locked(true)),
            EnsureAction::Spawn => {
                spawned += 1;
                ensure.ensure_daemon(EnsureEvent::Done)
            }
            EnsureAction::CleanUp | EnsureAction::Wait => ensure.ensure_daemon(EnsureEvent::Done),
            other => {
                action = other;
                break;
            }
        };
    }
    assert_eq!(spawned, 1);
    assert_eq!(action, EnsureAction::Finish);
}

#[test]
fn daemon_that_never_answers_is_given_up() {
    let (mut ensure, mut action) = EnsureDaemon::start(&RuntimePaths::for_test("/d"));
    let stopped = EnsureEvent::Status(DaemonStatus::Stopped);
    for _ in 0..10_000 {
        action = match action {
            EnsureAction::AskStatus => ensure.ensure_daemon(stopped),
            EnsureAction::TakeLock => ensure.ensure_daemon(EnsureEvent::Locked(true)),
            EnsureAction::CleanUp | EnsureAction::Wait | EnsureAction::Spawn => {
                ensure.ensure_daemon(EnsureEvent::Done)
            }
            other => {
                action = other;
                break;
            }
        };
    }
    let EnsureAction::Fail(said) = action else {
        panic!("预期超时");
    };
    assert!(said.contains("/d/"));
}
