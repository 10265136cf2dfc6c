//! Where a daemon keeps its files, how it is found, and how it is brought up.
use vstd::prelude::*;
use vstd::utf8::*;

use crate::number::{
    decimal, decimal_text, hex16, hex_digits, hex_limit, lemma_hex_digits, lemma_hex_digits_differ,
    parse_number, parse_u32,
};
use crate::path::{join_path, joined, lemma_joined_bases_differ, lemma_joined_differ};
use crate::text::{opt_text, same_text, trim, trimmed};

verus! {

/// What an FNV-1a hash starts from.
pub const FNV_OFFSET: u64 = 0xcbf2_9ce4_8422_2325;

/// An FNV-1a hash with one byte more.
pub open spec fn fnv_step(hash: u64, byte: u8) -> u64 {
    (((hash ^ (byte as u64)) * 0x100_0000_01b3) % 0x1_0000_0000_0000_0000) as u64
}

/// The FNV-1a hash of some bytes, from a hash of what came before.
pub open spec fn fnv(hash: u64, bytes: Seq<u8>) -> u64
    decreases bytes.len(),
{
    if bytes.len() == 0 {
        hash
    } else {
        fnv_step(fnv(hash, bytes.drop_last()), bytes.last())
    }
}

fn add_byte(hash: u64, byte: u8) -> (out: u64)
    ensures
        out == fnv_step(hash, byte),
{
    let mixed: u64 = hash ^ (byte as u64);
    let product: u128 = (mixed as u128) * 0x100_0000_01b3;
    (product % 0x1_0000_0000_0000_0000) as u64
}

fn add_bytes(hash: u64, bytes: &[u8], from: usize, to: usize) -> (out: u64)
    requires
        from <= to <= bytes@.len(),
    ensures
        out == fnv(hash, bytes@.subrange(from as int, to as int)),
{
    let mut out = hash;
    let mut at = from;
    assert(bytes@.subrange(from as int, from as int) =~= Seq::empty());
    while at < to
        invariant
            from <= at <= to <= bytes@.len(),
            out == fnv(hash, bytes@.subrange(from as int, at as int)),
        decreases to - at,
    {
        assert(bytes@.subrange(from as int, at + 1).drop_last() =~= bytes@.subrange(
            from as int,
            at as int,
        ));
        out = add_byte(out, bytes[at]);
        at += 1;
    }
    out
}

/// What tells one build of the program from another: a hash of its bytes, and how
/// many there are.
pub open spec fn fingerprint(bytes: Seq<u8>) -> Seq<char> {
    hex_digits(fnv(FNV_OFFSET, bytes) as nat, 16) + "-"@ + decimal(bytes.len())
}

/// What tells one build of the program from another.
pub fn executable_fingerprint(bytes: &Vec<u8>) -> (text: String)
    ensures
        text@ == fingerprint(bytes@),
{
    let hash = add_bytes(FNV_OFFSET, bytes.as_slice(), 0, bytes.len());
    assert(bytes@.subrange(0, bytes@.len() as int) =~= bytes@);
    let mut text = hex16(hash);
    text.append("-");
    text.append(decimal_text(bytes.len() as u128).as_str());
    text
}

/// The byte that separates the names in a path.
pub const SEPARATOR: u8 = 47;

/// The byte of a dot.
pub const DOT: u8 = 46;

/// Where the name that starts at `at` ends.
pub open spec fn part_end(path: Seq<u8>, at: int) -> int
    decreases path.len() - at,
{
    if at >= path.len() || path[at] == SEPARATOR {
        at
    } else {
        part_end(path, at + 1)
    }
}

/// The names in a path from `at` on. Empty names, and dots behind the first name,
/// say nothing and are left out.
pub open spec fn path_parts(path: Seq<u8>, at: int) -> Seq<Seq<u8>>
    decreases path.len() + 1 - at,
{
    if at < 0 || at >= path.len() {
        Seq::empty()
    } else {
        let end = part_end(path, at);
        let part = path.subrange(at, end);
        proof {
            lemma_part_end(path, at);
        }
        let rest = path_parts(path, end + 1);
        if part.len() == 0 || (at > 0 && part.len() == 1 && part[0] == DOT) {
            rest
        } else {
            seq![part] + rest
        }
    }
}

/// A name ends within its path.
pub proof fn lemma_part_end(path: Seq<u8>, at: int)
    requires
        at <= path.len(),
    ensures
        at <= part_end(path, at) <= path.len(),
    decreases path.len() - at,
{
    if at < path.len() && path[at] != SEPARATOR {
        lemma_part_end(path, at + 1);
    }
}

/// A number with its two lowest bits brought to the top.
pub open spec fn turned(n: u64) -> u64 {
    (n / 4 + (n % 4) * 0x4000_0000_0000_0000) as u64
}

/// A number that tells apart paths whose names run together to the same bytes.
pub open spec fn parts_mark(parts: Seq<Seq<u8>>, mark: u64) -> u64
    decreases parts.len(),
{
    if parts.len() == 0 {
        mark
    } else {
        parts_mark(
            parts.skip(1),
            turned(((mark + parts[0].len()) % 0x1_0000_0000_0000_0000) as u64),
        )
    }
}

/// The hash of some names one after another.
pub open spec fn parts_hash(parts: Seq<Seq<u8>>, hash: u64) -> u64
    decreases parts.len(),
{
    if parts.len() == 0 {
        hash
    } else {
        parts_hash(parts.skip(1), fnv(hash, parts[0]))
    }
}

/// The eight bytes of a number, the lowest first.
pub open spec fn low_bytes_first(n: u64) -> Seq<u8> {
    Seq::new(8, |i: int| byte_at(n, i))
}

/// One of the eight bytes of a number, counted from the lowest.
pub open spec fn byte_at(n: u64, i: int) -> u8
    decreases i,
{
    if i <= 0 {
        (n % 256) as u8
    } else {
        byte_at(n / 256, i - 1)
    }
}

/// The hash by which the files of one workspace are kept apart from those of
/// another: of the names in its path, and of a number made of their lengths.
pub open spec fn workspace_hash(path: Seq<u8>) -> u64 {
    let parts = path_parts(path, 0);
    fnv(parts_hash(parts, FNV_OFFSET), low_bytes_first(parts_mark(parts, 0)))
}

fn add_number(hash: u64, n: u64) -> (out: u64)
    ensures
        out == fnv(hash, low_bytes_first(n)),
{
    let ghost all = low_bytes_first(n);
    let mut out = hash;
    let mut rest = n;
    let mut at: usize = 0;
    assert(all.take(0) =~= Seq::empty());
    while at < 8
        invariant
            at <= 8,
            all == low_bytes_first(n),
            out == fnv(hash, all.take(at as int)),
            forall|i: int| 0 <= i < 8 - at ==> #[trigger] byte_at(rest, i) == byte_at(n, i + at),
        decreases 8 - at,
    {
        let ghost before = rest;
        assert(all.take(at + 1).drop_last() =~= all.take(at as int));
        assert(byte_at(rest, 0) == byte_at(n, at as int));
        out = add_byte(out, (rest % 256) as u8);
        rest = rest / 256;
        assert forall|i: int| 0 <= i < 8 - at - 1 implies #[trigger] byte_at(rest, i) == byte_at(
            n,
            i + at + 1,
        ) by {
            assert(byte_at(before, i + 1) == byte_at(rest, i));
        }
        at += 1;
    }
    assert(all.take(8) =~= all);
    out
}

/// The hash by which the files of one workspace are kept apart from those of another.
pub fn stable_workspace_hash(workspace: &str) -> (hash: u64)
    ensures
        hash == workspace_hash(encode_utf8(workspace@)),
{
    let path = workspace.as_bytes();
    let ghost parts = path_parts(path@, 0);
    let mut hash = FNV_OFFSET;
    let mut mark: u64 = 0;
    let mut at: usize = 0;
    let total = path.len();
    while at < total
        invariant
            0 <= at,
            at <= total || path_parts(path@, at as int).len() == 0,
            total == path@.len(),
            parts_hash(path_parts(path@, at as int), hash) == parts_hash(parts, FNV_OFFSET),
            parts_mark(path_parts(path@, at as int), mark) == parts_mark(parts, 0),
        decreases total - at,
    {
        let mut end = at;
        while end < total && path[end] != SEPARATOR
            invariant
                at <= end <= total,
                total == path@.len(),
                part_end(path@, end as int) == part_end(path@, at as int),
            decreases total - end,
        {
            end += 1;
        }
        let ghost part = path@.subrange(at as int, end as int);
        let ghost rest = path_parts(path@, end + 1);
        let length = end - at;
        if length > 0 && !(at > 0 && length == 1 && path[at] == DOT) {
            assert((seq![part] + rest).skip(1) =~= rest);
            hash = add_bytes(hash, path, at, end);
            let sum: u128 = (mark as u128) + (length as u128);
            let reduced = (sum % 0x1_0000_0000_0000_0000) as u64;
            mark = reduced / 4 + (reduced % 4) * 0x4000_0000_0000_0000;
        }
        if end == total {
            assert(path_parts(path@, end + 1).len() == 0);
            assert(path_parts(path@, end as int).len() == 0);
            assert(path_parts(path@, end + 1) =~= path_parts(path@, end as int));
            at = end;
        } else {
            at = end + 1;
        }
    }
    assert(path_parts(path@, at as int).len() == 0);
    add_number(hash, mark)
}

/// The files of a daemon.
#[derive(Clone, Debug, PartialEq, Eq)]
pub struct RuntimePaths {
    pub directory: String,
    pub socket: String,
    pub pid: String,
    pub ready: String,
    pub log: String,
    pub startup_lock: String,
}

impl RuntimePaths {
    /// Whether the files of a daemon lie in a directory, and its log somewhere.
    pub open spec fn lies_in(&self, directory: Seq<char>, log: Seq<char>) -> bool {
        &&& self.directory@ == directory
        &&& self.socket@ == joined(directory, "daemon.sock"@)
        &&& self.pid@ == joined(directory, "daemon.pid"@)
        &&& self.ready@ == joined(directory, "ready.json"@)
        &&& self.startup_lock@ == joined(directory, "startup.lock"@)
        &&& self.log@ == log
    }

    fn placed(directory: String, log: String) -> (paths: RuntimePaths)
        ensures
            paths.lies_in(directory@, log@),
    {
        RuntimePaths {
            socket: join_path(directory.as_str(), "daemon.sock"),
            pid: join_path(directory.as_str(), "daemon.pid"),
            ready: join_path(directory.as_str(), "ready.json"),
            startup_lock: join_path(directory.as_str(), "startup.lock"),
            log,
            directory,
        }
    }

    /// The files of the daemon for a workspace. They lie below the directory that is
    /// set for them, else below that for temporary files; the log stays with the
    /// workspace.
    pub fn for_workspace(workspace: &str, configured: Option<&str>, temporary: &str) -> (paths:
        RuntimePaths)
        ensures
            paths.lies_in(
                joined(
                    match configured {
                        Some(base) => base@,
                        None => joined(temporary@, "my-agent"@),
                    },
                    hex_digits(workspace_hash(encode_utf8(workspace@)) as nat, 16),
                ),
                joined(workspace@, ".my-agent/daemon.log"@),
            ),
    {
        let base = match configured {
            Some(base) => base.to_owned(),
            None => join_path(temporary, "my-agent"),
        };
        let directory = join_path(base.as_str(), hex16(stable_workspace_hash(workspace)).as_str());
        RuntimePaths::placed(directory, join_path(workspace, ".my-agent/daemon.log"))
    }

    /// The files of a daemon, all in one directory.
    pub fn for_test(directory: &str) -> (paths: RuntimePaths)
        ensures
            paths.lies_in(directory@, joined(directory@, "daemon.log"@)),
    {
        RuntimePaths::placed(directory.to_owned(), join_path(directory, "daemon.log"))
    }

    /// The files that a daemon leaves behind and that are removed with it.
    pub fn cleanup(&self) -> (out: Vec<&str>)
        ensures
            out@.len() == 4,
            out@[0]@ == self.socket@,
            out@[1]@ == self.pid@,
            out@[2]@ == self.ready@,
            out@[3]@ == self.startup_lock@,
    {
        let mut out: Vec<&str> = Vec::new();
        out.push(self.socket.as_str());
        out.push(self.pid.as_str());
        out.push(self.ready.as_str());
        out.push(self.startup_lock.as_str());
        out
    }
}

/// What a daemon leaves for others when it is ready.
#[derive(Clone, Debug, PartialEq, Eq)]
pub struct ReadyMarker {
    pub pid: u32,
    pub workspace: String,
    pub version: String,
    pub executable_fingerprint: Option<String>,
}

/// Whether the daemon that left a marker is of the build that asks. One that cannot
/// be read is of another, and so is one that does not say.
pub fn ready_marker_matches(
    marker: Option<&ReadyMarker>,
    version: &str,
    current: Option<&str>,
) -> (matches: bool)
    ensures
        matches == (match (marker, current) {
            (Some(marker), Some(current)) => marker.version@ == version@ && opt_text(
                marker.executable_fingerprint,
            ) == Some(current@),
            _ => false,
        }),
{
    match marker {
        Some(marker) => match (&marker.executable_fingerprint, current) {
            (Some(left), Some(current)) => same_text(marker.version.as_str(), version) && same_text(
                left.as_str(),
                current,
            ),
            _ => false,
        },
        None => false,
    }
}

/// The process id that a file holds.
pub fn read_pid(text: &str) -> (pid: Option<u32>)
    ensures
        match pid {
            Some(n) => parse_number(trim(text@), u32::MAX as nat) == Some(n as nat),
            None => parse_number(trim(text@), u32::MAX as nat) is None,
        },
{
    parse_u32(trimmed(text).as_str())
}

/// How long a startup lock counts, in seconds.
pub const STARTUP_LOCK_SECONDS: u64 = 10;

/// Whether a startup lock was left behind: by its age in seconds, where it is there.
pub fn startup_lock_is_stale(age: Option<u64>) -> (stale: bool)
    ensures
        stale <==> (age matches Some(age) && age >= STARTUP_LOCK_SECONDS),
{
    match age {
        Some(age) => age >= STARTUP_LOCK_SECONDS,
        None => false,
    }
}

/// How a daemon is.
#[derive(Clone, Copy, Debug, PartialEq, Eq, Structural)]
#[allow(inconsistent_fields)]
pub enum DaemonStatus {
    Ready { pid: u32 },
    Starting { pid: Option<u32> },
    Stale { pid: Option<u32> },
    Stopped,
}

/// What is known of a daemon from its files.
#[derive(Clone, Copy, Debug, PartialEq, Eq, Structural)]
pub enum StatusStep {
    Known(DaemonStatus),
    /// It depends on whether the process with this id is alive.
    Ask(u32),
}

impl RuntimePaths {
    /// How a daemon is: whether it takes a connection, which process id it left, and
    /// whether its ready marker or its socket is there.
    pub fn status(connected: bool, pid: Option<u32>, ready: bool, socket: bool) -> (step: StatusStep)
        ensures
            step == (if connected {
                StatusStep::Known(
                    DaemonStatus::Ready {
                        pid: match pid {
                            Some(pid) => pid,
                            None => 0,
                        },
                    },
                )
            } else if ready || socket {
                StatusStep::Known(DaemonStatus::Stale { pid })
            } else {
                match pid {
                    Some(pid) => StatusStep::Ask(pid),
                    None => StatusStep::Known(DaemonStatus::Stopped),
                }
            }),
    {
        if connected {
            let pid = match pid {
                Some(pid) => pid,
                None => 0,
            };
            return StatusStep::Known(DaemonStatus::Ready { pid });
        }
        if ready || socket {
            return StatusStep::Known(DaemonStatus::Stale { pid });
        }
        match pid {
            Some(pid) => StatusStep::Ask(pid),
            None => StatusStep::Known(DaemonStatus::Stopped),
        }
    }
}

/// How a daemon is of which only the process id is left.
pub fn status_of_process(pid: u32, alive: bool) -> (status: DaemonStatus)
    ensures
        status == (if alive {
            DaemonStatus::Starting { pid: Some(pid) }
        } else {
            DaemonStatus::Stale { pid: Some(pid) }
        }),
{
    if alive {
        DaemonStatus::Starting { pid: Some(pid) }
    } else {
        DaemonStatus::Stale { pid: Some(pid) }
    }
}

/// How often a daemon of another build is asked whether it has stopped.
pub const STOP_ROUNDS: usize = 50;

/// How often a daemon is asked whether it is ready.
pub const START_ROUNDS: usize = 60;

/// How far the way to a ready daemon has been gone.
#[derive(Clone, Copy, Debug, PartialEq, Eq, Structural)]
pub enum EnsureStage {
    /// To see whether a daemon is there.
    Looking,
    /// To see whether the daemon that is there is of this build.
    Comparing,
    /// To ask the daemon of another build to stop.
    Asking,
    /// To see whether it has stopped, in this round.
    Stopping(usize),
    /// To wait for the next round.
    StopWait(usize),
    /// To see whether it is still there after all rounds.
    StillThere,
    /// To see whether a daemon has left files behind.
    Leftovers,
    /// To remove what was left.
    Cleaning,
    /// To take the startup lock.
    Locking,
    /// To see, with the lock taken, whether a daemon came up meanwhile.
    LastLook,
    /// To start a daemon.
    Spawning,
    /// To see whether it is ready, in this round.
    Waiting(usize),
    /// To wait for the next round.
    StartWait(usize),
    Over,
}

/// What came of an action.
#[derive(Clone, Copy, Debug, PartialEq, Eq, Structural)]
pub enum EnsureEvent {
    Status(DaemonStatus),
    /// Whether the daemon is of this build.
    Matches(bool),
    /// Whether the startup lock has been taken.
    Locked(bool),
    /// What had to be done is done.
    Done,
}

/// What has to be done next.
#[derive(Debug, PartialEq, Eq)]
pub enum EnsureAction {
    AskStatus,
    CompareMarker,
    RequestStop,
    /// To wait for a tenth of a second.
    Wait,
    /// To remove the files of the daemon and to make its directory anew.
    CleanUp,
    /// To remove a startup lock that was left behind, and to take the lock.
    TakeLock,
    Spawn,
    /// The daemon is ready.
    Finish,
    /// It cannot be brought up, for this reason.
    Fail(String),
}

/// The actions without their texts.
#[derive(Clone, Copy)]
pub enum ActionKind {
    AskStatus,
    CompareMarker,
    RequestStop,
    Wait,
    CleanUp,
    TakeLock,
    Spawn,
    Finish,
    FailStillBusy,
    FailTimeout,
}

/// Whether an event is one that a stage waits for.
pub open spec fn awaits(stage: EnsureStage, event: EnsureEvent) -> bool {
    match stage {
        EnsureStage::Looking
        | EnsureStage::Stopping(_)
        | EnsureStage::StillThere
        | EnsureStage::Leftovers
        | EnsureStage::LastLook
        | EnsureStage::Waiting(_) => event is Status,
        EnsureStage::Comparing => event is Matches,
        EnsureStage::Locking => event is Locked,
        EnsureStage::Asking
        | EnsureStage::StopWait(_)
        | EnsureStage::Cleaning
        | EnsureStage::Spawning
        | EnsureStage::StartWait(_) => event is Done,
        EnsureStage::Over => false,
    }
}

/// Whether a stage is one that can be reached.
pub open spec fn in_rounds(stage: EnsureStage) -> bool {
    match stage {
        EnsureStage::Stopping(n) | EnsureStage::StopWait(n) => n < STOP_ROUNDS,
        EnsureStage::Waiting(n) | EnsureStage::StartWait(n) => n < START_ROUNDS,
        _ => true,
    }
}

/// The next stage and what has to be done in it.
pub open spec fn ensure_step(stage: EnsureStage, event: EnsureEvent) -> (EnsureStage, ActionKind) {
    let ready = event matches EnsureEvent::Status(DaemonStatus::Ready { .. });
    let stale = event matches EnsureEvent::Status(DaemonStatus::Stale { .. });
    match stage {
        EnsureStage::Looking => if ready {
            (EnsureStage::Comparing, ActionKind::CompareMarker)
        } else {
            (EnsureStage::Leftovers, ActionKind::AskStatus)
        },
        EnsureStage::Comparing => if event == EnsureEvent::Matches(true) {
            (EnsureStage::Over, ActionKind::Finish)
        } else {
            (EnsureStage::Asking, ActionKind::RequestStop)
        },
        EnsureStage::Asking => (EnsureStage::Stopping(0), ActionKind::AskStatus),
        EnsureStage::Stopping(n) => if ready {
            (EnsureStage::StopWait(n), ActionKind::Wait)
        } else {
            (EnsureStage::StillThere, ActionKind::AskStatus)
        },
        EnsureStage::StopWait(n) => if n + 1 < STOP_ROUNDS {
            (EnsureStage::Stopping((n + 1) as usize), ActionKind::AskStatus)
        } else {
            (EnsureStage::StillThere, ActionKind::AskStatus)
        },
        EnsureStage::StillThere => if ready {
            (EnsureStage::Over, ActionKind::FailStillBusy)
        } else {
            (EnsureStage::Leftovers, ActionKind::AskStatus)
        },
        EnsureStage::Leftovers => if stale {
            (EnsureStage::Cleaning, ActionKind::CleanUp)
        } else {
            (EnsureStage::Locking, ActionKind::TakeLock)
        },
        EnsureStage::Cleaning => (EnsureStage::Locking, ActionKind::TakeLock),
        EnsureStage::Locking => if event == EnsureEvent::Locked(true) {
            (EnsureStage::LastLook, ActionKind::AskStatus)
        } else {
            (EnsureStage::Waiting(0), ActionKind::AskStatus)
        },
        EnsureStage::LastLook => if ready {
            (EnsureStage::Waiting(0), ActionKind::AskStatus)
        } else {
            (EnsureStage::Spawning, ActionKind::Spawn)
        },
        EnsureStage::Spawning => (EnsureStage::Waiting(0), ActionKind::AskStatus),
        EnsureStage::Waiting(n) => if ready {
            (EnsureStage::Over, ActionKind::Finish)
        } else {
            (EnsureStage::StartWait(n), ActionKind::Wait)
        },
        EnsureStage::StartWait(n) => if n + 1 < START_ROUNDS {
            (EnsureStage::Waiting((n + 1) as usize), ActionKind::AskStatus)
        } else {
            (EnsureStage::Over, ActionKind::FailTimeout)
        },
        EnsureStage::Over => (EnsureStage::Over, ActionKind::Finish),
    }
}

/// Whether an action is of a kind. What is said of a failure names the log.
pub open spec fn is_action(action: EnsureAction, kind: ActionKind, log: Seq<char>) -> bool {
    match kind {
        ActionKind::AskStatus => action is AskStatus,
        ActionKind::CompareMarker => action is CompareMarker,
        ActionKind::RequestStop => action is RequestStop,
        ActionKind::Wait => action is Wait,
        ActionKind::CleanUp => action is CleanUp,
        ActionKind::TakeLock => action is TakeLock,
        ActionKind::Spawn => action is Spawn,
        ActionKind::Finish => action is Finish,
        ActionKind::FailStillBusy => action matches EnsureAction::Fail(text) && text@
            == "旧版本 daemon 正在完成活动任务，暂时无法切换；请稍后重试"@,
        ActionKind::FailTimeout => action matches EnsureAction::Fail(text) && text@
            == "daemon 启动超时；请查看日志 "@ + log + "，或运行 `my-agent config check`"@,
    }
}

/// The way to a ready daemon: how far it has been gone, and what its failure names.
#[derive(Debug)]
pub struct EnsureDaemon {
    pub stage: EnsureStage,
    pub log: String,
}

impl EnsureDaemon {
    /// The start of the way, once the directory is there: to ask how the daemon is.
    pub fn start(paths: &RuntimePaths) -> (out: (EnsureDaemon, EnsureAction))
        ensures
            out.0.stage == EnsureStage::Looking,
            out.0.log@ == paths.log@,
            out.1 is AskStatus,
    {
        (
            EnsureDaemon { stage: EnsureStage::Looking, log: paths.log.clone() },
            EnsureAction::AskStatus,
        )
    }

    /// What has to be done after what came of the last action.
    pub fn ensure_daemon(&mut self, event: EnsureEvent) -> (action: EnsureAction)
        requires
            awaits(old(self).stage, event),
            in_rounds(old(self).stage),
        ensures
            final(self).stage == ensure_step(old(self).stage, event).0,
            in_rounds(final(self).stage),
            final(self).log == old(self).log,
            is_action(action, ensure_step(old(self).stage, event).1, old(self).log@),
    {
        let ready = match event {
            EnsureEvent::Status(DaemonStatus::Ready { .. }) => true,
            _ => false,
        };
        let stale = match event {
            EnsureEvent::Status(DaemonStatus::Stale { .. }) => true,
            _ => false,
        };
        let (stage, action) = match self.stage {
            EnsureStage::Looking => if ready {
                (EnsureStage::Comparing, EnsureAction::CompareMarker)
            } else {
                (EnsureStage::Leftovers, EnsureAction::AskStatus)
            },
            EnsureStage::Comparing => if event == EnsureEvent::Matches(true) {
                (EnsureStage::Over, EnsureAction::Finish)
            } else {
                (EnsureStage::Asking, EnsureAction::RequestStop)
            },
            EnsureStage::Asking => (EnsureStage::Stopping(0), EnsureAction::AskStatus),
            EnsureStage::Stopping(n) => if ready {
                (EnsureStage::StopWait(n), EnsureAction::Wait)
            } else {
                (EnsureStage::StillThere, EnsureAction::AskStatus)
            },
            EnsureStage::StopWait(n) => if n + 1 < STOP_ROUNDS {
                (EnsureStage::Stopping(n + 1), EnsureAction::AskStatus)
            } else {
                (EnsureStage::StillThere, EnsureAction::AskStatus)
            },
            EnsureStage::StillThere => if ready {
                (
                    EnsureStage::Over,
                    EnsureAction::Fail(
                        "旧版本 daemon 正在完成活动任务，暂时无法切换；请稍后重试".to_owned(),
                    ),
                )
            } else {
                (EnsureStage::Leftovers, EnsureAction::AskStatus)
            },
            EnsureStage::Leftovers => if stale {
                (EnsureStage::Cleaning, EnsureAction::CleanUp)
            } else {
                (EnsureStage::Locking, EnsureAction::TakeLock)
            },
            EnsureStage::Cleaning => (EnsureStage::Locking, EnsureAction::TakeLock),
            EnsureStage::Locking => if event == EnsureEvent::Locked(true) {
                (EnsureStage::LastLook, EnsureAction::AskStatus)
            } else {
                (EnsureStage::Waiting(0), EnsureAction::AskStatus)
            },
            EnsureStage::LastLook => if ready {
                (EnsureStage::Waiting(0), EnsureAction::AskStatus)
            } else {
                (EnsureStage::Spawning, EnsureAction::Spawn)
            },
            EnsureStage::Spawning => (EnsureStage::Waiting(0), EnsureAction::AskStatus),
            EnsureStage::Waiting(n) => if ready {
                (EnsureStage::Over, EnsureAction::Finish)
            } else {
                (EnsureStage::StartWait(n), EnsureAction::Wait)
            },
            EnsureStage::StartWait(n) => if n + 1 < START_ROUNDS {
                (EnsureStage::Waiting(n + 1), EnsureAction::AskStatus)
            } else {
                let mut text = "daemon 启动超时；请查看日志 ".to_owned();
                text.append(self.log.as_str());
                text.append("，或运行 `my-agent config check`");
                (EnsureStage::Over, EnsureAction::Fail(text))
            },
            EnsureStage::Over => (EnsureStage::Over, EnsureAction::Finish),
        };
        self.stage = stage;
        action
    }
}

/// How many actions there are still to come at most.
pub open spec fn actions_left(stage: EnsureStage) -> int {
    match stage {
        EnsureStage::Looking => 230,
        EnsureStage::Comparing => 229,
        EnsureStage::Asking => 228,
        EnsureStage::Stopping(n) => 127 + 2 * (STOP_ROUNDS - n),
        EnsureStage::StopWait(n) => 126 + 2 * (STOP_ROUNDS - n),
        EnsureStage::StillThere => 127,
        EnsureStage::Leftovers => 126,
        EnsureStage::Cleaning => 125,
        EnsureStage::Locking => 124,
        EnsureStage::LastLook => 123,
        EnsureStage::Spawning => 122,
        EnsureStage::Waiting(n) => 1 + 2 * (START_ROUNDS - n),
        EnsureStage::StartWait(n) => 2 * (START_ROUNDS - n),
        EnsureStage::Over => 0,
    }
}

/// The way to a ready daemon comes to an end: with each action fewer are left.
pub proof fn law_ensuring_comes_to_an_end(stage: EnsureStage, event: EnsureEvent)
    requires
        awaits(stage, event),
        in_rounds(stage),
    ensures
        0 <= actions_left(ensure_step(stage, event).0) < actions_left(stage),
        in_rounds(ensure_step(stage, event).0),
{
}

/// A daemon is started only where the lock was taken and none was ready then.
pub proof fn law_daemon_is_started_only_where_none_is_ready(stage: EnsureStage, event: EnsureEvent)
    requires
        awaits(stage, event),
        ensure_step(stage, event).1 == ActionKind::Spawn,
    ensures
        stage == EnsureStage::LastLook,
        !(event matches EnsureEvent::Status(DaemonStatus::Ready { .. })),
        forall|from: EnsureStage, by: EnsureEvent|
            #![trigger ensure_step(from, by)]
            awaits(from, by) && ensure_step(from, by).0 == EnsureStage::LastLook ==> by
                == EnsureEvent::Locked(true),
{
}

/// The way ends well only with a daemon that is ready, or that is of this build.
pub proof fn law_success_means_a_ready_daemon(stage: EnsureStage, event: EnsureEvent)
    requires
        awaits(stage, event),
        ensure_step(stage, event).1 == ActionKind::Finish,
    ensures
        event == EnsureEvent::Matches(true) || event matches EnsureEvent::Status(
            DaemonStatus::Ready { .. },
        ),
{
}

proof fn lemma_hash_directories_differ(base: Seq<char>, a: u64, b: u64)
    requires
        a != b,
    ensures
        joined(base, hex_digits(a as nat, 16)) != joined(base, hex_digits(b as nat, 16)),
        joined(base, hex_digits(a as nat, 16)).len() > 0,
        joined(base, hex_digits(a as nat, 16)).last() != '/',
{
    assert(hex_limit(16) == 0x1_0000_0000_0000_0000) by {
        reveal_with_fuel(hex_limit, 17);
    }
    lemma_hex_digits(a as nat, 16);
    lemma_hex_digits(b as nat, 16);
    lemma_hex_digits_differ(a as nat, b as nat, 16);
    lemma_joined_differ(base, hex_digits(a as nat, 16), hex_digits(b as nat, 16));
    let name = hex_digits(a as nat, 16);
    let directory = joined(base, name);
    assert(directory.last() == name[15]);
}

/// Daemons of workspaces with different hashes share no file, wherever the files
/// of daemons are kept.
pub proof fn law_workspaces_are_kept_apart(
    base: Seq<char>,
    a: u64,
    b: u64,
    log_a: Seq<char>,
    log_b: Seq<char>,
    paths_a: RuntimePaths,
    paths_b: RuntimePaths,
)
    requires
        a != b,
        paths_a.lies_in(joined(base, hex_digits(a as nat, 16)), log_a),
        paths_b.lies_in(joined(base, hex_digits(b as nat, 16)), log_b),
    ensures
        paths_a.directory@ != paths_b.directory@,
        paths_a.socket@ != paths_b.socket@,
        paths_a.pid@ != paths_b.pid@,
        paths_a.ready@ != paths_b.ready@,
        paths_a.startup_lock@ != paths_b.startup_lock@,
{
    lemma_hash_directories_differ(base, a, b);
    lemma_hash_directories_differ(base, b, a);
    let first = joined(base, hex_digits(a as nat, 16));
    let second = joined(base, hex_digits(b as nat, 16));
    reveal_strlit("daemon.sock");
    reveal_strlit("daemon.pid");
    reveal_strlit("ready.json");
    reveal_strlit("startup.lock");
    lemma_joined_bases_differ(first, second, "daemon.sock"@);
    lemma_joined_bases_differ(first, second, "daemon.pid"@);
    lemma_joined_bases_differ(first, second, "ready.json"@);
    lemma_joined_bases_differ(first, second, "startup.lock"@);
}

/// Bytes are hashed one after the other: those behind are hashed on from where those before
/// left off, each mixed in and then multiplied by the prime.
pub proof fn law_bytes_are_hashed_in_their_order(hash: u64, a: Seq<u8>, b: Seq<u8>, byte: u8)
    ensures
        fnv(hash, Seq::empty()) == hash,
        fnv(hash, a + b) == fnv(fnv(hash, a), b),
        fnv(hash, seq![byte]) as int == ((hash ^ (byte as u64)) * 1099511628211)
            % 18446744073709551616,
    decreases b.len(),
{
    assert(seq![byte].drop_last() =~= Seq::empty());
    assert(fnv(hash, seq![byte].drop_last()) == hash);
    if b.len() == 0 {
        assert(a + b =~= a);
    } else {
        law_bytes_are_hashed_in_their_order(hash, a, b.drop_last(), byte);
        assert((a + b).drop_last() =~= a + b.drop_last());
        assert((a + b).last() == b.last());
    }
}

/// The mark of an executable ends in its size: executables of different sizes differ.
pub proof fn law_executables_of_different_sizes_differ(a: Seq<u8>, b: Seq<u8>)
    requires
        a.len() != b.len(),
    ensures
        fingerprint(a) != fingerprint(b),
        fingerprint(a).skip(17) == decimal(a.len()),
{
    reveal_strlit("-");
    lemma_hex_digits(fnv(FNV_OFFSET, a) as nat, 16);
    lemma_hex_digits(fnv(FNV_OFFSET, b) as nat, 16);
    assert(fingerprint(a).skip(17) =~= decimal(a.len()));
    assert(fingerprint(b).skip(17) =~= decimal(b.len()));
    crate::number::lemma_decimal(a.len());
    crate::number::lemma_decimal(b.len());
}

/// The names of a path hold no slash and are not empty; a single dot is left out behind the
/// first, and a slash at the end changes nothing.
pub proof fn law_names_of_a_path(path: Seq<u8>, i: int)
    ensures
        0 <= i < path_parts(path, 0).len() ==> path_parts(path, 0)[i].len() > 0 && !path_parts(
            path,
            0,
        )[i].contains(47),
        path_parts(path.push(47), 0) == path_parts(path, 0),
        workspace_hash(path.push(47)) == workspace_hash(path),
{
    lemma_parts_are_names(path, 0, i);
    lemma_slash_at_the_end(path, 0);
}

proof fn lemma_part_is_plain(path: Seq<u8>, at: int, k: int)
    requires
        0 <= at <= k < part_end(path, at),
    ensures
        path[k] != SEPARATOR,
    decreases path.len() - at,
{
    if at < path.len() && path[at] != SEPARATOR && at < k {
        lemma_part_is_plain(path, at + 1, k);
    }
}

proof fn lemma_parts_are_names(path: Seq<u8>, at: int, i: int)
    requires
        0 <= at,
    ensures
        0 <= i < path_parts(path, at).len() ==> path_parts(path, at)[i].len() > 0 && !path_parts(
            path,
            at,
        )[i].contains(47),
    decreases path.len() + 1 - at,
{
    if at < path.len() {
        lemma_part_end(path, at);
        let end = part_end(path, at);
        let part = path.subrange(at, end);
        lemma_parts_are_names(path, end + 1, i);
        lemma_parts_are_names(path, end + 1, i - 1);
        assert forall|k: int| 0 <= k < part.len() implies part[k] != 47 by {
            lemma_part_is_plain(path, at, at + k);
        }
    }
}

proof fn lemma_slash_at_the_end(path: Seq<u8>, at: int)
    requires
        0 <= at,
    ensures
        path_parts(path.push(47), at) == path_parts(path, at),
    decreases path.len() + 1 - at,
{
    let more = path.push(47);
    if at < path.len() {
        lemma_part_end(path, at);
        lemma_same_end(path, at);
        let end = part_end(path, at);
        assert(more.subrange(at, end) =~= path.subrange(at, end));
        lemma_slash_at_the_end(path, end + 1);
    } else if at == path.len() {
        assert(part_end(more, at) == at);
        assert(more.subrange(at, at).len() == 0);
        assert(path_parts(more, at + 1) == Seq::<Seq<u8>>::empty());
    }
}

proof fn lemma_same_end(path: Seq<u8>, at: int)
    requires
        0 <= at <= path.len(),
    ensures
        part_end(path.push(47), at) == part_end(path, at),
    decreases path.len() - at,
{
    if at < path.len() && path[at] != SEPARATOR {
        lemma_same_end(path, at + 1);
    }
}

/// The bytes of a number, the lowest first, make the number.
pub proof fn law_low_bytes_make_the_number(n: u64, i: int)
    ensures
        low_bytes_first(n).len() == 8,
        low_bytes_first(n)[0] == n % 256,
        0 <= i < 7 ==> low_bytes_first(n)[i + 1] == low_bytes_first(n / 256)[i],
{
}

/// A number is turned by two places: its two lowest bits come to the top.
pub proof fn law_two_lowest_bits_come_to_the_top(n: u64)
    ensures
        turned(n) == (n >> 2) | (n << 62),
{
    assert((n / 4 + (n % 4) * 0x4000_0000_0000_0000) as u64 == (n >> 2) | (n << 62)) by (bit_vector);
}

/// A daemon that is ready and of this build is used at once; one of another build is asked
/// to stop; what a dead one left behind is cleaned up before the lock is taken.
pub proof fn law_ready_daemon_is_used_and_leftovers_are_cleaned_up(pid: u32, left: Option<u32>)
    ensures
        ensure_step(
            EnsureStage::Looking,
            EnsureEvent::Status(DaemonStatus::Ready { pid }),
        ) == (EnsureStage::Comparing, ActionKind::CompareMarker),
        ensure_step(EnsureStage::Comparing, EnsureEvent::Matches(true)) == (
            EnsureStage::Over,
            ActionKind::Finish,
        ),
        ensure_step(EnsureStage::Comparing, EnsureEvent::Matches(false)) == (
            EnsureStage::Asking,
            ActionKind::RequestStop,
        ),
        ensure_step(
            EnsureStage::Leftovers,
            EnsureEvent::Status(DaemonStatus::Stale { pid: left }),
        ).1 == ActionKind::CleanUp,
        ensure_step(EnsureStage::Leftovers, EnsureEvent::Status(DaemonStatus::Stopped)).1
            == ActionKind::TakeLock,
        ensure_step(EnsureStage::Cleaning, EnsureEvent::Done).1 == ActionKind::TakeLock,
{
}

/// Who gets the lock starts a daemon where none came up meanwhile; who does not get it waits
/// for the one that is coming up.
pub proof fn law_who_holds_the_lock_starts_the_daemon(pid: u32, status: DaemonStatus)
    ensures
        ensure_step(EnsureStage::Locking, EnsureEvent::Locked(true)).0 == EnsureStage::LastLook,
        ensure_step(EnsureStage::Locking, EnsureEvent::Locked(false)).0 == EnsureStage::Waiting(0),
        !(status is Ready) ==> ensure_step(EnsureStage::LastLook, EnsureEvent::Status(status)).1
            == ActionKind::Spawn,
        ensure_step(
            EnsureStage::LastLook,
            EnsureEvent::Status(DaemonStatus::Ready { pid }),
        ).0 == EnsureStage::Waiting(0),
{
}

/// A daemon that is ready in time ends the wait; one that is not is waited for in sixty
/// rounds, and one of another build is given fifty to stop.
pub proof fn law_daemons_are_waited_for_in_rounds(n: usize, pid: u32, status: DaemonStatus)
    ensures
        ensure_step(
            EnsureStage::Waiting(n),
            EnsureEvent::Status(DaemonStatus::Ready { pid }),
        ).1 == ActionKind::Finish,
        !(status is Ready) ==> ensure_step(EnsureStage::Waiting(n), EnsureEvent::Status(status)).1
            == ActionKind::Wait,
        n < 59 ==> ensure_step(EnsureStage::StartWait(n), EnsureEvent::Done).0
            == EnsureStage::Waiting((n + 1) as usize),
        n >= 59 ==> ensure_step(EnsureStage::StartWait(n), EnsureEvent::Done).1
            == ActionKind::FailTimeout,
        ensure_step(
            EnsureStage::Stopping(n),
            EnsureEvent::Status(DaemonStatus::Ready { pid }),
        ).1 == ActionKind::Wait,
        !(status is Ready) ==> ensure_step(EnsureStage::Stopping(n), EnsureEvent::Status(status)).0
            == EnsureStage::StillThere,
        n < 49 ==> ensure_step(EnsureStage::StopWait(n), EnsureEvent::Done).0
            == EnsureStage::Stopping((n + 1) as usize),
        n >= 49 ==> ensure_step(EnsureStage::StopWait(n), EnsureEvent::Done).0
            == EnsureStage::StillThere,
        ensure_step(
            EnsureStage::StillThere,
            EnsureEvent::Status(DaemonStatus::Ready { pid }),
        ).1 == ActionKind::FailStillBusy,
{
}

/// A startup lock is taken for left behind once it is ten seconds old, and not before.
pub proof fn law_startup_lock_is_stale_after_ten_seconds(age: Option<u64>, stale: bool)
    requires
        call_ensures(startup_lock_is_stale, (age,), stale),
    ensures
        stale <==> age is Some && age->0 >= 10,
{
}

/// A ready marker is that of this build exactly where version and executable are the same.
pub proof fn law_marker_matches_the_same_build_alone(
    marker: Option<&ReadyMarker>,
    version: &str,
    current: Option<&str>,
    same: bool,
)
    requires
        call_ensures(ready_marker_matches, (marker, version, current), same),
    ensures
        same <==> marker is Some && current is Some && (marker->0).version@ == version@ && (
        marker->0).executable_fingerprint is Some && ((
        marker->0).executable_fingerprint->0)@ == (current->0)@,
{
}

/// A daemon that can be reached is ready; what is left of one that cannot is stale; where
/// nothing but a process id is left, it depends on the process.
pub proof fn law_status_of_a_daemon(
    connected: bool,
    pid: Option<u32>,
    ready: bool,
    socket: bool,
    step: StatusStep,
    process: u32,
    alive: bool,
    status: DaemonStatus,
)
    requires
        call_ensures(RuntimePaths::status, (connected, pid, ready, socket), step),
        call_ensures(status_of_process, (process, alive), status),
    ensures
        (step matches StatusStep::Known(DaemonStatus::Ready { .. })) <==> connected,
        connected && pid is Some ==> step == StatusStep::Known(DaemonStatus::Ready { pid: pid->0 }),
        (step matches StatusStep::Known(DaemonStatus::Stale { .. })) <==> !connected && (ready
            || socket),
        step is Ask <==> !connected && !ready && !socket && pid is Some,
        step == StatusStep::Known(DaemonStatus::Stopped) <==> !connected && !ready && !socket && pid
            is None,
        alive ==> status == (DaemonStatus::Starting { pid: Some(process) }),
        !alive ==> status == (DaemonStatus::Stale { pid: Some(process) }),
{
}

/// The names of a path are hashed one after the other, and their lengths are marked in the
/// same order.
pub proof fn law_names_are_hashed_in_their_order(
    a: Seq<Seq<u8>>,
    b: Seq<Seq<u8>>,
    name: Seq<u8>,
    hash: u64,
)
    ensures
        parts_hash(a + b, hash) == parts_hash(b, parts_hash(a, hash)),
        parts_hash(seq![name], hash) == fnv(hash, name),
        parts_mark(a + b, hash) == parts_mark(b, parts_mark(a, hash)),
        parts_mark(seq![name], hash) == turned(
            ((hash + name.len()) % 18446744073709551616) as u64,
        ),
    decreases a.len(),
{
    assert(seq![name].skip(1) =~= Seq::empty());
    reveal_with_fuel(parts_hash, 2);
    reveal_with_fuel(parts_mark, 2);
    if a.len() == 0 {
        assert(a + b =~= b);
    } else {
        assert((a + b).skip(1) =~= a.skip(1) + b);
        assert((a + b)[0] == a[0]);
        law_names_are_hashed_in_their_order(a.skip(1), b, name, fnv(hash, a[0]));
        law_names_are_hashed_in_their_order(
            a.skip(1),
            b,
            name,
            turned(((hash + a[0].len()) % 0x1_0000_0000_0000_0000) as u64),
        );
    }
}

/// The way to a daemon fails in two ways: where one of another build is still busy after all
/// rounds, and where none is ready after all rounds; the second failure names the log.
pub proof fn law_failures_to_start_are_told(
    way: &mut EnsureDaemon,
    event: EnsureEvent,
    action: EnsureAction,
)
    requires
        call_ensures(EnsureDaemon::ensure_daemon, (way, event), action),
        in_rounds(old(way).stage),
    ensures
        action matches EnsureAction::Fail(text) ==> old(way).stage is StillThere || old(
            way,
        ).stage == EnsureStage::StartWait(59),
        (old(way).stage is StillThere && action is Fail) ==> (action matches EnsureAction::Fail(text)
            && text@ == "旧版本 daemon 正在完成活动任务，暂时无法切换；请稍后重试"@),
        old(way).stage == EnsureStage::StartWait(59) ==> (action matches EnsureAction::Fail(text)
            && text@ == "daemon 启动超时；请查看日志 "@ + old(way).log@
            + "，或运行 `my-agent config check`"@),
        old(way).stage is StillThere ==> (action is Fail <==> (event matches EnsureEvent::Status(
            status,
        ) && status is Ready)),
        final(way).log == old(way).log,
{
}

} // verus!
