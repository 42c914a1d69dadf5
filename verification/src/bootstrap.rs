//! Starting a scrcpy session, step by step.
//!
//! A [`Bootstrap`] says what to do next; the caller does it and reports how it
//! went, until the session is connected or has failed:
//!
//! 1. ask the device for the size of the server file it has,
//! 2. push the local server file, unless the sizes already match,
//! 3. start the server through `adb shell` and keep that process alive,
//! 4. have `adb` forward a free local port to the server's socket,
//! 5. connect to that port, again and again while the server warms up.
//!
//! The size is asked on *every* start. "We pushed it once" is not the same as
//! "it is still there": the directory is cleared by reboots, wipes and, on some
//! devices, by the platform itself.
use vstd::prelude::*;

use crate::scrcpy_client::{
    adb_shell_args, adb_shell_check, adb_spawn_error, build_start_argv, device_args, device_argv,
    first_u64, forward_connect_addr, parse_first_u64, remove_forward, remove_forward_argv,
    shell_argv, spawn_failure, start_argv, AdbReply, ScrcpyRuntimeInfo, StreamOptions,
    REMOTE_SERVER_PATH,
};
use crate::text::{
    all_digits, concat2, decimal, hex, in_run, is_digit, law_decimal_round_trip, lemma_parsed_fits,
    lemma_run_end, parse_number, parsed, push_text, run_end, trim, trimmed, trimmed_end, with_hex8,
    IntError, Run,
};

verus! {

/// How long connecting is retried, in nanoseconds.
pub const CONNECT_PATIENCE_NS: u128 = 3_000_000_000;

/// Pause between two connection attempts, in milliseconds.
pub const CONNECT_PAUSE_MS: u64 = 40;

/// How far a session has come: what the next report will be about.
#[derive(Debug, Clone, Copy, PartialEq, Eq, Structural)]
pub enum Phase {
    /// The size of the server file on the device.
    Sizing,
    /// Pushing the server file.
    Pushing,
    /// Starting the server.
    Launching,
    /// Setting the forward up.
    Forwarding,
    /// Connecting to the forwarded port.
    Connecting { port: u16 },
    /// Nothing: the session is connected or has failed.
    Ended,
}

/// How one attempt to connect to the forwarded port went. A connection is only
/// good if the peer does not hang up at once: with `adb forward` connecting
/// succeeds even before the server listens.
pub enum Attempt {
    /// The connection could not be made, for the given reason.
    Refused(String),
    /// The peer hung up at once.
    Eof,
    /// The peer has sent something.
    Data,
    /// The peer is there but has not sent anything yet.
    Quiet,
    /// The connection could not be examined, for the given reason.
    Unreadable(String),
}

/// What the caller reports.
pub enum Report {
    /// `adb` was run to its end.
    Adb(AdbReply),
    /// `adb` was started and left running, or could not be started.
    Spawned(Result<(), String>),
    /// A connection attempt, and the time since the first one began.
    Tried { attempt: Attempt, elapsed_ns: u128 },
}

/// What the caller is to do next.
pub enum Action {
    /// Run `adb` to its end and report [`Report::Adb`].
    RunAdb { args: Vec<String> },
    /// Start `adb`, keep it running, and report [`Report::Spawned`].
    SpawnAdb { args: Vec<String> },
    /// Wait, connect to the address, and report [`Report::Tried`].
    Connect { addr: String, pause_ms: u64 },
    /// Use the connection. The forward from this port stays for the session.
    Connected { local_port: u16 },
    /// Give up with this error, after the clean-up that it names.
    Fail { error: String, terminate_server: bool, remove_forward: Option<Vec<String>> },
}

/// A session being started.
pub struct Bootstrap {
    pub serial: String,
    pub server_host: String,
    pub server_port: u16,
    pub opts: StreamOptions,
    pub runtime: ScrcpyRuntimeInfo,
    /// Identifies this session among concurrent ones.
    pub scid: u32,
    pub phase: Phase,
}

// ---------------------------------------------------------------------------
// Model
// ---------------------------------------------------------------------------

/// What stays the same while a session is started.
pub struct Target {
    pub serial: Seq<char>,
    pub host: Seq<char>,
    pub port: u16,
    pub opts: StreamOptions,
    pub version: Seq<char>,
    pub server_path: Seq<char>,
    pub server_size: u64,
    pub scid: u32,
}

/// An [`Action`] in terms of text.
pub enum Doing {
    RunAdb { args: Seq<Seq<char>> },
    SpawnAdb { args: Seq<Seq<char>> },
    Connect { addr: Seq<char>, pause_ms: u64 },
    Connected { local_port: u16 },
    Fail { error: Seq<char>, terminate_server: bool, remove_forward: Option<Seq<Seq<char>>> },
}

impl Action {
    /// The action in terms of text.
    pub open spec fn doing(self) -> Doing {
        match self {
            Action::RunAdb { args } => Doing::RunAdb { args: args.deep_view() },
            Action::SpawnAdb { args } => Doing::SpawnAdb { args: args.deep_view() },
            Action::Connect { addr, pause_ms } => Doing::Connect { addr: addr@, pause_ms },
            Action::Connected { local_port } => Doing::Connected { local_port },
            Action::Fail { error, terminate_server, remove_forward } => Doing::Fail {
                error: error@,
                terminate_server,
                remove_forward: remove_forward.deep_view(),
            },
        }
    }
}

impl Bootstrap {
    /// What stays the same while the session is started.
    pub open spec fn target(self) -> Target {
        Target {
            serial: self.serial@,
            host: self.server_host@,
            port: self.server_port,
            opts: self.opts,
            version: self.runtime.version@,
            server_path: self.runtime.server_path@,
            server_size: self.runtime.server_size,
            scid: self.scid,
        }
    }

    /// Whether this is the report that the session waits for.
    pub open spec fn awaits(self, report: Report) -> bool {
        awaited(self.phase, report)
    }
}

/// Whether a session in this phase waits for this report.
pub open spec fn awaited(phase: Phase, report: Report) -> bool {
    match phase {
        Phase::Sizing | Phase::Pushing | Phase::Forwarding => report is Adb,
        Phase::Launching => report is Spawned,
        Phase::Connecting { .. } => report is Tried,
        Phase::Ended => false,
    }
}

/// The shell command that prints the size of the server file on the device.
pub open spec fn size_command() -> Seq<char> {
    "stat -c %s "@ + REMOTE_SERVER_PATH@ + " 2>/dev/null || wc -c < "@ + REMOTE_SERVER_PATH@
        + " 2>/dev/null || echo 0"@
}

/// The size of the server file on the device, zero if it cannot be told.
pub open spec fn remote_size(reply: AdbReply) -> u64 {
    match reply {
        AdbReply::Ran { success, stdout, .. } => if success {
            match first_u64(stdout@) {
                Some(n) => n,
                None => 0,
            }
        } else {
            0
        },
        AdbReply::NotRun(_) => 0,
    }
}

/// The first step: ask for the size.
pub open spec fn sizing(t: Target) -> Doing {
    Doing::RunAdb { args: shell_argv(t.host, t.port, t.serial, size_command()) }
}

/// Push the local server file.
pub open spec fn pushing(t: Target) -> Doing {
    Doing::RunAdb {
        args: device_argv(t.host, t.port, t.serial) + seq![
            "push"@,
            t.server_path,
            REMOTE_SERVER_PATH@,
        ],
    }
}

/// Start the server.
pub open spec fn launching(t: Target) -> Doing {
    Doing::SpawnAdb {
        args: device_argv(t.host, t.port, t.serial) + seq!["shell"@] + start_argv(
            REMOTE_SERVER_PATH@,
            t.version,
            t.scid,
            t.opts,
        ),
    }
}

/// The socket on which the server of a session listens.
pub open spec fn socket_name(scid: u32) -> Seq<char> {
    "localabstract:scrcpy_"@ + hex(scid as nat, 8)
}

/// Forward a free local port to the server's socket.
pub open spec fn forwarding(t: Target) -> Doing {
    Doing::RunAdb {
        args: device_argv(t.host, t.port, t.serial) + seq![
            "forward"@,
            "tcp:0"@,
            socket_name(t.scid),
        ],
    }
}

/// Connect to the forwarded port.
pub open spec fn connecting(t: Target, port: u16, pause_ms: u64) -> Doing {
    Doing::Connect { addr: t.host + ":"@ + decimal(port as nat), pause_ms }
}

/// Give up before the server runs, or where nothing is cleaned up.
pub open spec fn failing(error: Seq<char>) -> Doing {
    Doing::Fail { error, terminate_server: false, remove_forward: None }
}

/// The port that `adb forward tcp:0` printed.
pub open spec fn allocated_port(stdout: Seq<char>) -> Result<nat, IntError> {
    parsed(trimmed(stdout), u16::MAX as nat)
}

/// Why an attempt did not lead to a usable connection, if so.
pub open spec fn attempt_failure(attempt: Attempt) -> Option<Seq<char>> {
    match attempt {
        Attempt::Refused(e) => Some(e@),
        Attempt::Eof => Some("immediate EOF (server not ready)"@),
        Attempt::Data => None,
        Attempt::Quiet => None,
        Attempt::Unreadable(e) => Some("peek failed: "@ + e@),
    }
}

/// How a session in `phase` goes on after `report`.
pub open spec fn next(t: Target, phase: Phase, report: Report) -> (Phase, Doing) {
    match (phase, report) {
        (Phase::Sizing, Report::Adb(reply)) => if remote_size(reply) != t.server_size {
            (Phase::Pushing, pushing(t))
        } else {
            (Phase::Launching, launching(t))
        },
        (Phase::Pushing, Report::Adb(AdbReply::NotRun(e))) => (
            Phase::Ended,
            failing(spawn_failure(e@)),
        ),
        (Phase::Pushing, Report::Adb(AdbReply::Ran { success, stderr, .. })) => if success {
            (Phase::Launching, launching(t))
        } else {
            (Phase::Ended, failing("adb push failed: "@ + stderr@))
        },
        (Phase::Launching, Report::Spawned(Err(e))) => (Phase::Ended, failing(spawn_failure(e@))),
        (Phase::Launching, Report::Spawned(Ok(_))) => (Phase::Forwarding, forwarding(t)),
        (Phase::Forwarding, Report::Adb(AdbReply::NotRun(e))) => (
            Phase::Ended,
            failing(spawn_failure(e@)),
        ),
        (Phase::Forwarding, Report::Adb(AdbReply::Ran { success, stdout, stderr })) => if !success {
            (
                Phase::Ended,
                Doing::Fail {
                    error: "adb forward failed: "@ + stderr@,
                    terminate_server: true,
                    remove_forward: None,
                },
            )
        } else {
            match allocated_port(stdout@) {
                Ok(port) => (
                    Phase::Connecting { port: port as u16 },
                    connecting(t, port as u16, 0),
                ),
                Err(e) => (
                    Phase::Ended,
                    failing("failed to parse allocated port: "@ + e.explanation()),
                ),
            }
        },
        (Phase::Connecting { port }, Report::Tried { attempt, elapsed_ns }) => match attempt_failure(
            attempt,
        ) {
            None => (Phase::Ended, Doing::Connected { local_port: port }),
            Some(why) => if elapsed_ns > CONNECT_PATIENCE_NS {
                (
                    Phase::Ended,
                    Doing::Fail {
                        error: "tcp connect failed after retries: "@ + why,
                        terminate_server: true,
                        remove_forward: Some(
                            remove_forward_argv(t.host, t.port, t.serial, port),
                        ),
                    },
                )
            } else {
                (phase, connecting(t, port, CONNECT_PAUSE_MS))
            },
        },
        _ => (phase, failing(Seq::empty())),
    }
}

// ---------------------------------------------------------------------------
// Execution
// ---------------------------------------------------------------------------

/// The shell command that prints the size of the server file on the device.
pub fn size_command_text() -> (r: String)
    ensures
        r@ == size_command(),
{
    let mut cmd = concat2("stat -c %s ", REMOTE_SERVER_PATH);
    cmd.append(" 2>/dev/null || wc -c < ");
    cmd.append(REMOTE_SERVER_PATH);
    cmd.append(" 2>/dev/null || echo 0");
    cmd
}

/// The size of the server file on the device, zero if it cannot be told.
pub fn remote_server_size(reply: AdbReply) -> (r: u64)
    ensures
        r == remote_size(reply),
{
    match adb_shell_check(reply) {
        Ok(stdout) => match parse_first_u64(stdout.as_str()) {
            Some(n) => n,
            None => 0,
        },
        Err(_) => 0,
    }
}

fn fail(error: String) -> (r: Action)
    ensures
        r.doing() == failing(error@),
{
    Action::Fail { error, terminate_server: false, remove_forward: None }
}

impl Bootstrap {
    /// Begins a session and says what to do first.
    pub fn begin(
        serial: &str,
        server_host: &str,
        server_port: u16,
        opts: &StreamOptions,
        runtime: ScrcpyRuntimeInfo,
        scid: u32,
    ) -> (r: (Bootstrap, Action))
        ensures
            r.0.target() == (Target {
                serial: serial@,
                host: server_host@,
                port: server_port,
                opts: *opts,
                version: runtime.version@,
                server_path: runtime.server_path@,
                server_size: runtime.server_size,
                scid,
            }),
            r.0.phase == Phase::Sizing,
            r.1.doing() == sizing(r.0.target()),
    {
        let cmd = size_command_text();
        let args = adb_shell_args(server_host, server_port, serial, cmd.as_str());
        (
            Bootstrap {
                serial: serial.to_owned(),
                server_host: server_host.to_owned(),
                server_port,
                opts: *opts,
                runtime,
                scid,
                phase: Phase::Sizing,
            },
            Action::RunAdb { args },
        )
    }

    fn device(&self) -> (r: Vec<String>)
        ensures
            r.deep_view() == device_argv(
                self.target().host,
                self.target().port,
                self.target().serial,
            ),
    {
        device_args(self.server_host.as_str(), self.server_port, self.serial.as_str())
    }

    fn push_action(&self) -> (r: Action)
        ensures
            r.doing() == pushing(self.target()),
    {
        let mut args = self.device();
        push_text(&mut args, "push");
        push_text(&mut args, self.runtime.server_path.as_str());
        push_text(&mut args, REMOTE_SERVER_PATH);
        proof {
            assert(args.deep_view() =~= pushing(self.target())->RunAdb_args);
        }
        Action::RunAdb { args }
    }

    fn launch_action(&self) -> (r: Action)
        ensures
            r.doing() == launching(self.target()),
    {
        let mut args = self.device();
        push_text(&mut args, "shell");
        let ghost before = args.deep_view();
        let mut argv = build_start_argv(
            REMOTE_SERVER_PATH,
            self.runtime.version.as_str(),
            self.scid,
            &self.opts,
        );
        let ghost tokens = argv.deep_view();
        args.append(&mut argv);
        proof {
            assert(args.deep_view() =~= before + tokens);
            assert(args.deep_view() =~= launching(self.target())->SpawnAdb_args);
        }
        Action::SpawnAdb { args }
    }

    fn forward_action(&self) -> (r: Action)
        ensures
            r.doing() == forwarding(self.target()),
    {
        let mut args = self.device();
        push_text(&mut args, "forward");
        push_text(&mut args, "tcp:0");
        push_text(&mut args, with_hex8("localabstract:scrcpy_", self.scid).as_str());
        proof {
            assert(args.deep_view() =~= forwarding(self.target())->RunAdb_args);
        }
        Action::RunAdb { args }
    }

    fn connect_action(&self, port: u16, pause_ms: u64) -> (r: Action)
        ensures
            r.doing() == connecting(self.target(), port, pause_ms),
    {
        Action::Connect {
            addr: forward_connect_addr(self.server_host.as_str(), port),
            pause_ms,
        }
    }

    fn forwarded(&mut self, stdout: &str) -> (r: Action)
        requires
            old(self).phase == Phase::Forwarding,
        ensures
            final(self).target() == old(self).target(),
            match allocated_port(stdout@) {
                Ok(port) => final(self).phase == (Phase::Connecting { port: port as u16 })
                    && r.doing() == connecting(old(self).target(), port as u16, 0),
                Err(e) => final(self).phase == Phase::Ended && r.doing() == failing(
                    "failed to parse allocated port: "@ + e.explanation(),
                ),
            },
    {
        let text = trim(stdout);
        match parse_number(text.as_str(), u16::MAX as u64) {
            Ok(n) => {
                let port = n as u16;
                self.phase = Phase::Connecting { port };
                self.connect_action(port, 0)
            },
            Err(e) => {
                self.phase = Phase::Ended;
                fail(concat2("failed to parse allocated port: ", e.message()))
            },
        }
    }

    fn tried(&mut self, port: u16, attempt: Attempt, elapsed_ns: u128) -> (r: Action)
        requires
            old(self).phase == (Phase::Connecting { port }),
        ensures
            final(self).target() == old(self).target(),
            (final(self).phase, r.doing()) == next(
                old(self).target(),
                old(self).phase,
                Report::Tried { attempt, elapsed_ns },
            ),
    {
        let why: Option<String> = match attempt {
            Attempt::Refused(e) => Some(e),
            Attempt::Eof => Some("immediate EOF (server not ready)".to_owned()),
            Attempt::Data => None,
            Attempt::Quiet => None,
            Attempt::Unreadable(e) => Some(concat2("peek failed: ", e.as_str())),
        };
        match why {
            None => {
                self.phase = Phase::Ended;
                Action::Connected { local_port: port }
            },
            Some(why) => if elapsed_ns > CONNECT_PATIENCE_NS {
                self.phase = Phase::Ended;
                let args = remove_forward(
                    self.server_host.as_str(),
                    self.server_port,
                    self.serial.as_str(),
                    port,
                );
                Action::Fail {
                    error: concat2("tcp connect failed after retries: ", why.as_str()),
                    terminate_server: true,
                    remove_forward: Some(args),
                }
            } else {
                self.connect_action(port, CONNECT_PAUSE_MS)
            },
        }
    }

    /// Takes the report that the session waits for and says what to do next.
    pub fn step(&mut self, report: Report) -> (r: Action)
        requires
            old(self).awaits(report),
        ensures
            final(self).target() == old(self).target(),
            (final(self).phase, r.doing()) == next(old(self).target(), old(self).phase, report),
    {
        match (self.phase, report) {
            (Phase::Sizing, Report::Adb(reply)) => {
                if remote_server_size(reply) != self.runtime.server_size {
                    self.phase = Phase::Pushing;
                    self.push_action()
                } else {
                    self.phase = Phase::Launching;
                    self.launch_action()
                }
            },
            (Phase::Pushing, Report::Adb(AdbReply::NotRun(e))) => {
                self.phase = Phase::Ended;
                fail(adb_spawn_error(e.as_str()))
            },
            (Phase::Pushing, Report::Adb(AdbReply::Ran { success, stderr, .. })) => {
                if success {
                    self.phase = Phase::Launching;
                    self.launch_action()
                } else {
                    self.phase = Phase::Ended;
                    fail(concat2("adb push failed: ", stderr.as_str()))
                }
            },
            (Phase::Launching, Report::Spawned(Err(e))) => {
                self.phase = Phase::Ended;
                fail(adb_spawn_error(e.as_str()))
            },
            (Phase::Launching, Report::Spawned(Ok(_))) => {
                self.phase = Phase::Forwarding;
                self.forward_action()
            },
            (Phase::Forwarding, Report::Adb(AdbReply::NotRun(e))) => {
                self.phase = Phase::Ended;
                fail(adb_spawn_error(e.as_str()))
            },
            (Phase::Forwarding, Report::Adb(AdbReply::Ran { success, stdout, stderr })) => {
                if !success {
                    self.phase = Phase::Ended;
                    Action::Fail {
                        error: concat2("adb forward failed: ", stderr.as_str()),
                        terminate_server: true,
                        remove_forward: None,
                    }
                } else {
                    self.forwarded(stdout.as_str())
                }
            },
            (Phase::Connecting { port }, Report::Tried { attempt, elapsed_ns }) => self.tried(
                port,
                attempt,
                elapsed_ns,
            ),
            _ => fail(String::new()),
        }
    }
}

// ---------------------------------------------------------------------------
// Laws
// ---------------------------------------------------------------------------

/// The server file is pushed exactly when its size on the device is not that of
/// the local one.
pub proof fn law_pushed_iff_sizes_differ(t: Target, reply: AdbReply)
    ensures
        next(t, Phase::Sizing, Report::Adb(reply)).0 == Phase::Pushing <==> remote_size(reply)
            != t.server_size,
        next(t, Phase::Sizing, Report::Adb(reply)).0 == Phase::Launching <==> remote_size(reply)
            == t.server_size,
{
}

/// Whether `reply` is a successful command that printed the number `n` on a line.
pub open spec fn prints_number(reply: AdbReply, n: nat) -> bool {
    match reply {
        AdbReply::Ran { success, stdout, .. } => success && stdout@ == decimal(n).push('\n'),
        AdbReply::NotRun(_) => false,
    }
}

/// A size that the device prints is the size that is compared.
pub proof fn law_printed_size_is_read(reply: AdbReply, n: u64)
    requires
        prints_number(reply, n as nat),
    ensures
        remote_size(reply) == n,
{
    let s = reply->stdout@;
    lemma_digits_then_newline(n as nat);
    assert(run_end(Run::NonDigits, s, 0) == 0);
    let end = run_end(Run::Digits, s, 0);
    lemma_run_end(Run::Digits, s, 0);
    assert(end == s.len() - 1) by {
        if end < s.len() - 1 {
            assert(s[end] == decimal(n as nat)[end]);
        }
        if end == s.len() {
            assert(in_run(Run::Digits, s[s.len() - 1]));
        }
    }
    assert(s.subrange(0, end) =~= decimal(n as nat));
    law_decimal_round_trip(n as nat, u64::MAX as nat);
}

/// A port that `adb forward` prints is the port that is connected to.
pub proof fn law_printed_port_is_used(t: Target, reply: AdbReply, port: u16)
    requires
        prints_number(reply, port as nat),
    ensures
        next(t, Phase::Forwarding, Report::Adb(reply)) == (
            Phase::Connecting { port },
            connecting(t, port, 0),
        ),
{
    let s = reply->stdout@;
    lemma_digits_then_newline(port as nat);
    assert(run_end(Run::White, s, 0) == 0);
    assert(s.skip(0) =~= s);
    assert(s.drop_last() =~= decimal(port as nat));
    let d = decimal(port as nat);
    assert(is_digit(d[d.len() - 1]));
    assert(trimmed_end(d) == d);
    assert(trimmed_end(s) == d);
    law_decimal_round_trip(port as nat, u16::MAX as nat);
}

proof fn lemma_digits_then_newline(n: nat)
    ensures
        decimal(n).len() > 0,
        all_digits(decimal(n)),
        is_digit(decimal(n).push('\n')[0]),
{
    law_decimal_round_trip(n, n);
    assert(is_digit(decimal(n)[0]));
}

/// The forward leads to the server that was started: the socket is named after
/// the client id that the server was given.
pub proof fn law_forward_meets_the_server(t: Target)
    ensures
        launching(t)->SpawnAdb_args.contains("scid="@ + hex(t.scid as nat, 8)),
        launching(t)->SpawnAdb_args.contains("tunnel_forward=true"@),
        forwarding(t)->RunAdb_args.last() == "localabstract:scrcpy_"@ + hex(t.scid as nat, 8),
{
    let head = device_argv(t.host, t.port, t.serial) + seq!["shell"@];
    let argv = start_argv(REMOTE_SERVER_PATH@, t.version, t.scid, t.opts);
    let args = launching(t)->SpawnAdb_args;
    assert(args =~= head + argv);
    assert(args[head.len() as int + 5] == argv[5]);
    assert(args[head.len() as int + 9] == argv[9]);
}

/// Clean-up on failure. Once the server runs, a failure takes it down, except
/// where `adb forward` could not be run or printed no port; and a failure to
/// connect also takes the forward down.
pub proof fn law_failure_cleans_up(t: Target, phase: Phase, report: Report)
    requires
        awaited(phase, report),
        next(t, phase, report).1 is Fail,
    ensures
        phase is Connecting ==> next(t, phase, report).1->terminate_server && next(
            t,
            phase,
            report,
        ).1->remove_forward == Some(
            remove_forward_argv(t.host, t.port, t.serial, phase->port),
        ),
        phase == Phase::Forwarding ==> {
            ||| next(t, phase, report).1->terminate_server
            ||| report->Adb_0 is NotRun
            ||| allocated_port(report->Adb_0->stdout@) is Err
        },
        phase == Phase::Sizing || phase == Phase::Pushing || phase == Phase::Launching ==> !next(
            t,
            phase,
            report,
        ).1->terminate_server && next(t, phase, report).1->remove_forward is None,
{
}

/// How far along a phase is.
pub open spec fn rank(phase: Phase) -> nat {
    match phase {
        Phase::Sizing => 0,
        Phase::Pushing => 1,
        Phase::Launching => 2,
        Phase::Forwarding => 3,
        Phase::Connecting { .. } => 4,
        Phase::Ended => 5,
    }
}

/// A session only moves forward. It stays where it is only to try connecting
/// again, which it does no more once its patience is exceeded; and it ends with
/// exactly the actions that end it.
pub proof fn law_session_moves_forward(t: Target, phase: Phase, report: Report)
    requires
        awaited(phase, report),
    ensures
        rank(next(t, phase, report).0) >= rank(phase),
        next(t, phase, report).0 == phase ==> phase is Connecting && report->elapsed_ns
            <= CONNECT_PATIENCE_NS,
        rank(next(t, phase, report).0) == rank(phase) ==> next(t, phase, report).0 == phase,
        next(t, phase, report).0 == Phase::Ended <==> next(t, phase, report).1 is Connected || next(
            t,
            phase,
            report,
        ).1 is Fail,
{
}

/// The phase that a session has reached after `reports`.
pub open spec fn phase_after(t: Target, reports: Seq<Report>) -> Phase
    decreases reports.len(),
{
    if reports.len() == 0 {
        Phase::Sizing
    } else {
        next(t, phase_after(t, reports.drop_last()), reports.last()).0
    }
}

/// Whether every one of `reports` came when the session waited for it.
pub open spec fn well_timed(t: Target, reports: Seq<Report>) -> bool
    decreases reports.len(),
{
    reports.len() > 0 ==> well_timed(t, reports.drop_last()) && awaited(
        phase_after(t, reports.drop_last()),
        reports.last(),
    )
}

/// Whether `report` says that the server was started.
pub open spec fn starts_server(report: Report) -> bool {
    report matches Report::Spawned(r) && r is Ok
}

/// Whether `report` says that a forward from `port` was set up.
pub open spec fn sets_forward_up(report: Report, port: u16) -> bool {
    report matches Report::Adb(reply) && reply matches AdbReply::Ran { success, stdout, .. }
        && success && allocated_port(stdout@) == Ok::<nat, IntError>(port as nat)
}

/// Nobody is told to connect unless, in this order, the server was started and
/// `adb` set the forward up from the very port.
pub proof fn law_connecting_follows_launch_and_forward(t: Target, reports: Seq<Report>)
    requires
        well_timed(t, reports),
        phase_after(t, reports) is Connecting,
    ensures
        exists|i: int, j: int|
            0 <= i < j < reports.len() && #[trigger] starts_server(reports[i])
                && #[trigger] sets_forward_up(reports[j], phase_after(t, reports)->port),
    decreases reports.len(),
{
    let init = reports.drop_last();
    let before = phase_after(t, init);
    let n = reports.len() - 1;
    if before is Connecting {
        law_connecting_follows_launch_and_forward(t, init);
        let (i, j) = choose|i: int, j: int|
            0 <= i < j < init.len() && #[trigger] starts_server(init[i])
                && #[trigger] sets_forward_up(init[j], before->port);
        assert(starts_server(reports[i]));
        assert(sets_forward_up(reports[j], before->port));
    } else {
        assert(before == Phase::Forwarding);
        let i = lemma_forwarding_follows_launch(t, init);
        assert(starts_server(reports[i]));
        let stdout = reports.last()->Adb_0->stdout@;
        lemma_parsed_fits(trimmed(stdout), u16::MAX as nat);
        assert(sets_forward_up(reports[n], phase_after(t, reports)->port));
    }
}

proof fn lemma_forwarding_follows_launch(t: Target, reports: Seq<Report>) -> (i: int)
    requires
        well_timed(t, reports),
        phase_after(t, reports) == Phase::Forwarding,
    ensures
        0 <= i < reports.len(),
        starts_server(reports[i]),
{
    reports.len() - 1
}

/// While no more than three seconds have gone by, an attempt to connect that did not
/// succeed is repeated, whatever the reason: the same port of the same host is tried
/// again after forty milliseconds, and nothing is cleaned up.
pub proof fn law_connecting_is_retried(t: Target, port: u16, attempt: Attempt, elapsed_ns: u128)
    requires
        attempt is Refused || attempt is Eof || attempt is Unreadable,
        elapsed_ns <= 3_000_000_000,
    ensures
        next(t, Phase::Connecting { port }, Report::Tried { attempt, elapsed_ns }).0 == (
        Phase::Connecting { port }),
        next(t, Phase::Connecting { port }, Report::Tried { attempt, elapsed_ns }).1 == (
        Doing::Connect { addr: t.host + ":"@ + decimal(port as nat), pause_ms: 40 }),
{
}

/// After more than three seconds an attempt that did not succeed is the last one:
/// the server is terminated, the forward removed, and the error says why the attempt
/// failed.
pub proof fn law_connecting_is_given_up(t: Target, port: u16, attempt: Attempt, elapsed_ns: u128)
    requires
        attempt is Refused || attempt is Eof || attempt is Unreadable,
        elapsed_ns > 3_000_000_000,
    ensures
        ({
            let (phase, doing) = next(
                t,
                Phase::Connecting { port },
                Report::Tried { attempt, elapsed_ns },
            );
            &&& phase == Phase::Ended
            &&& doing is Fail
            &&& doing->terminate_server
            &&& doing->remove_forward is Some
            &&& doing->remove_forward->0 =~= seq![
                "-H"@,
                t.host,
                "-P"@,
                decimal(t.port as nat),
                "-s"@,
                t.serial,
                "forward"@,
                "--remove"@,
                "tcp:"@ + decimal(port as nat),
            ]
            &&& attempt matches Attempt::Refused(e) ==> doing->error
                == "tcp connect failed after retries: "@ + e@
            &&& attempt is Eof ==> doing->error
                == "tcp connect failed after retries: "@ + "immediate EOF (server not ready)"@
            &&& attempt matches Attempt::Unreadable(e) ==> doing->error
                == "tcp connect failed after retries: "@ + ("peek failed: "@ + e@)
        }),
{
}

/// A session is connected exactly when the peer has sent something or stays without
/// sending, no matter how long it took, and the port in use is the one connected to.
pub proof fn law_connected_iff_the_peer_stays(
    t: Target,
    port: u16,
    attempt: Attempt,
    elapsed_ns: u128,
)
    ensures
        next(t, Phase::Connecting { port }, Report::Tried { attempt, elapsed_ns }).1 is Connected
            <==> attempt is Data || attempt is Quiet,
        attempt is Data || attempt is Quiet ==> next(
            t,
            Phase::Connecting { port },
            Report::Tried { attempt, elapsed_ns },
        ) == (Phase::Ended, Doing::Connected { local_port: port }),
{
}

/// No other phase connects a session.
pub proof fn law_only_connecting_connects(t: Target, phase: Phase, report: Report)
    requires
        awaited(phase, report),
        next(t, phase, report).1 is Connected,
    ensures
        phase is Connecting,
{
}

/// What each phase waits for: replies of `adb` while sizing, pushing and forwarding,
/// the start of the server while launching, attempts while connecting, and nothing
/// once the session has ended.
pub proof fn law_awaited_reports(report: Report, port: u16)
    ensures
        awaited(Phase::Sizing, report) <==> report is Adb,
        awaited(Phase::Pushing, report) <==> report is Adb,
        awaited(Phase::Launching, report) <==> report is Spawned,
        awaited(Phase::Forwarding, report) <==> report is Adb,
        awaited(Phase::Connecting { port }, report) <==> report is Tried,
        !awaited(Phase::Ended, report),
{
}

/// A size that cannot be told counts as zero: where `adb` did not run, where the
/// command failed, and where it printed no digit.
pub proof fn law_unknown_size_is_zero(reply: AdbReply)
    requires
        match reply {
            AdbReply::Ran { success, stdout, .. } => !success || forall|k: int|
                0 <= k < stdout@.len() ==> !is_digit(#[trigger] stdout@[k]),
            AdbReply::NotRun(_) => true,
        },
    ensures
        remote_size(reply) == 0,
{
    if let AdbReply::Ran { success, stdout, .. } = reply {
        if success {
            lemma_run_end(Run::NonDigits, stdout@, 0);
        }
    }
}

/// A failed push, or one that could not be tried, ends the session with nothing to
/// clean up, and says why; a push that succeeded is followed by the launch.
pub proof fn law_push_outcomes(t: Target, reply: AdbReply)
    ensures
        ({
            let (phase, doing) = next(t, Phase::Pushing, Report::Adb(reply));
            match reply {
                AdbReply::NotRun(e) => {
                    &&& phase == Phase::Ended
                    &&& doing == (Doing::Fail {
                        error: "adb spawn failed: "@ + e@,
                        terminate_server: false,
                        remove_forward: None,
                    })
                },
                AdbReply::Ran { success, stdout, stderr } => if success {
                    phase == Phase::Launching && doing is SpawnAdb
                } else {
                    &&& phase == Phase::Ended
                    &&& doing == (Doing::Fail {
                        error: "adb push failed: "@ + stderr@,
                        terminate_server: false,
                        remove_forward: None,
                    })
                },
            }
        }),
{
}

/// A server that was started is followed by the forward; one that was not ends the
/// session with nothing to clean up.
pub proof fn law_launch_outcomes(t: Target, spawned: Result<(), String>)
    ensures
        ({
            let (phase, doing) = next(t, Phase::Launching, Report::Spawned(spawned));
            match spawned {
                Ok(_) => phase == Phase::Forwarding && doing is RunAdb,
                Err(e) => phase == Phase::Ended && doing == (Doing::Fail {
                    error: "adb spawn failed: "@ + e@,
                    terminate_server: false,
                    remove_forward: None,
                }),
            }
        }),
{
}

/// A forward that `adb` refused takes the server down; one that it could not be asked
/// for, or whose port it did not print, ends the session as it is; any port that it
/// printed is connected to at once.
pub proof fn law_forward_outcomes(t: Target, reply: AdbReply)
    ensures
        ({
            let (phase, doing) = next(t, Phase::Forwarding, Report::Adb(reply));
            match reply {
                AdbReply::NotRun(e) => {
                    &&& phase == Phase::Ended
                    &&& doing == (Doing::Fail {
                        error: "adb spawn failed: "@ + e@,
                        terminate_server: false,
                        remove_forward: None,
                    })
                },
                AdbReply::Ran { success, stdout, stderr } => {
                    &&& !success ==> phase == Phase::Ended && doing == (Doing::Fail {
                        error: "adb forward failed: "@ + stderr@,
                        terminate_server: true,
                        remove_forward: None,
                    })
                    &&& success ==> match parsed(trimmed(stdout@), 65535) {
                        Ok(port) => phase == (Phase::Connecting { port: port as u16 }) && doing == (
                        Doing::Connect {
                            addr: t.host + ":"@ + decimal(port),
                            pause_ms: 0,
                        }),
                        Err(e) => phase == Phase::Ended && doing == (Doing::Fail {
                            error: "failed to parse allocated port: "@ + e.explanation(),
                            terminate_server: false,
                            remove_forward: None,
                        }),
                    }
                },
            }
        }),
{
    if let AdbReply::Ran { success, stdout, .. } = reply {
        lemma_parsed_fits(trimmed(stdout@), 65535);
    }
}

/// Every command is addressed to the device of the session, on its server.
pub proof fn law_commands_address_the_device(t: Target, k: int)
    requires
        0 <= k < 6,
    ensures
        ({
            let address = seq!["-H"@, t.host, "-P"@, decimal(t.port as nat), "-s"@, t.serial];
            &&& sizing(t)->RunAdb_args[k] == address[k]
            &&& pushing(t)->RunAdb_args[k] == address[k]
            &&& launching(t)->SpawnAdb_args[k] == address[k]
            &&& forwarding(t)->RunAdb_args[k] == address[k]
        }),
{
}

/// What the commands are, behind the address of the device: a shell that prints the
/// size of the server file, a push of the local file to where it is looked for, a
/// shell that starts the server, and a forward of a free port to its socket.
pub proof fn law_commands_of_a_session(t: Target)
    ensures
        sizing(t) is RunAdb,
        sizing(t)->RunAdb_args.skip(6) =~= seq![
            "shell"@,
            "sh"@,
            "-c"@,
            "stat -c %s "@ + "/data/local/tmp/phone-control-scrcpy-server.jar"@
                + " 2>/dev/null || wc -c < "@ + "/data/local/tmp/phone-control-scrcpy-server.jar"@
                + " 2>/dev/null || echo 0"@,
        ],
        pushing(t) is RunAdb,
        pushing(t)->RunAdb_args.skip(6) =~= seq![
            "push"@,
            t.server_path,
            "/data/local/tmp/phone-control-scrcpy-server.jar"@,
        ],
        launching(t) is SpawnAdb,
        launching(t)->SpawnAdb_args.len() == 26,
        launching(t)->SpawnAdb_args[6] == "shell"@,
        launching(t)->SpawnAdb_args.skip(7) =~= start_argv(
            "/data/local/tmp/phone-control-scrcpy-server.jar"@,
            t.version,
            t.scid,
            t.opts,
        ),
        forwarding(t) is RunAdb,
        forwarding(t)->RunAdb_args.skip(6) =~= seq![
            "forward"@,
            "tcp:0"@,
            "localabstract:scrcpy_"@ + hex(t.scid as nat, 8),
        ],
{
}

/// The steps come in order: sizing leads to the push or straight to the launch, with
/// the very commands of these steps.
pub proof fn law_steps_give_their_commands(t: Target, reply: AdbReply, stdout: String, stderr: String)
    ensures
        remote_size(reply) == t.server_size ==> next(t, Phase::Sizing, Report::Adb(reply)) == (
            Phase::Launching,
            launching(t),
        ),
        remote_size(reply) != t.server_size ==> next(t, Phase::Sizing, Report::Adb(reply)) == (
            Phase::Pushing,
            pushing(t),
        ),
        next(
            t,
            Phase::Pushing,
            Report::Adb(AdbReply::Ran { success: true, stdout, stderr }),
        ) == (Phase::Launching, launching(t)),
        next(t, Phase::Launching, Report::Spawned(Ok(()))) == (Phase::Forwarding, forwarding(t)),
{
}

/// A session begins by asking for the size, whatever it was told to connect to.
pub proof fn law_sessions_begin_with_the_size(
    serial: &str,
    server_host: &str,
    server_port: u16,
    opts: &StreamOptions,
    runtime: ScrcpyRuntimeInfo,
    scid: u32,
    r: (Bootstrap, Action),
)
    requires
        call_ensures(
            Bootstrap::begin,
            (serial, server_host, server_port, opts, runtime, scid),
            r,
        ),
    ensures
        r.0.phase == Phase::Sizing,
        r.0.serial@ == serial@,
        r.0.server_host@ == server_host@,
        r.0.server_port == server_port,
        r.0.opts == *opts,
        r.0.runtime.version@ == runtime.version@,
        r.0.runtime.server_path@ == runtime.server_path@,
        r.0.runtime.server_size == runtime.server_size,
        r.0.scid == scid,
        r.1 is RunAdb,
        r.1->RunAdb_args.deep_view() =~= seq![
            "-H"@,
            server_host@,
            "-P"@,
            decimal(server_port as nat),
            "-s"@,
            serial@,
            "shell"@,
            "sh"@,
            "-c"@,
            "stat -c %s "@ + "/data/local/tmp/phone-control-scrcpy-server.jar"@
                + " 2>/dev/null || wc -c < "@ + "/data/local/tmp/phone-control-scrcpy-server.jar"@
                + " 2>/dev/null || echo 0"@,
        ],
{
    let t = r.0.target();
    assert(t.serial == serial@ && t.host == server_host@ && t.port == server_port);
    assert(r.1.doing() == sizing(t));
}

/// The size read from a reply is the first number in what a successful command
/// printed.
pub proof fn law_reading_the_size(reply: AdbReply, r: u64, before: Seq<char>, n: u64, after: Seq<char>)
    requires
        call_ensures(remote_server_size, (reply,), r),
        reply matches AdbReply::Ran { success, stdout, .. } && success && stdout@ == before
            + decimal(n as nat) + after,
        forall|k: int| 0 <= k < before.len() ==> !is_digit(#[trigger] before[k]),
        after.len() == 0 || !is_digit(after[0]),
    ensures
        r == n,
{
    crate::scrcpy_client::law_first_number_is_read(before, n, after);
}

/// What an action says is what it means: the parts that the laws speak of are the parts
/// that the caller sees.
pub proof fn law_actions_mean_what_they_say(action: Action)
    ensures
        action matches Action::RunAdb { args } ==> action.doing() == (Doing::RunAdb {
            args: args.deep_view(),
        }),
        action matches Action::SpawnAdb { args } ==> action.doing() == (Doing::SpawnAdb {
            args: args.deep_view(),
        }),
        action matches Action::Connect { addr, pause_ms } ==> action.doing() == (Doing::Connect {
            addr: addr@,
            pause_ms,
        }),
        action matches Action::Connected { local_port } ==> action.doing() == (Doing::Connected {
            local_port,
        }),
        action matches Action::Fail { error, terminate_server, remove_forward } ==> action.doing()
            is Fail && action.doing()->error == error@ && action.doing()->terminate_server
            == terminate_server && (remove_forward is None <==> action.doing()->remove_forward
            is None) && (remove_forward is Some ==> action.doing()->remove_forward->0
            == remove_forward->0.deep_view()),
{
}

/// A step answers the report that is awaited: the session goes on as [`next`] has it, and
/// keeps everything but its phase.
pub proof fn law_stepping(session: &mut Bootstrap, report: Report, r: Action)
    requires
        call_ensures(Bootstrap::step, (session, report), r),
    ensures
        (final(session).phase, r.doing()) == next(
            old(session).target(),
            old(session).phase,
            report,
        ),
        final(session).serial@ == old(session).serial@,
        final(session).server_host@ == old(session).server_host@,
        final(session).server_port == old(session).server_port,
        final(session).opts == old(session).opts,
        final(session).runtime.version@ == old(session).runtime.version@,
        final(session).runtime.server_path@ == old(session).runtime.server_path@,
        final(session).runtime.server_size == old(session).runtime.server_size,
        final(session).scid == old(session).scid,
{
    let a = old(session).target();
    let b = final(session).target();
    assert(a == b);
}

/// A session whose connection attempt failed in time tries again, as the caller sees it.
pub proof fn law_a_failed_attempt_is_repeated(
    session: &mut Bootstrap,
    attempt: Attempt,
    elapsed_ns: u128,
    port: u16,
    r: Action,
)
    requires
        call_ensures(Bootstrap::step, (session, Report::Tried { attempt, elapsed_ns }), r),
        old(session).phase == (Phase::Connecting { port }),
        !(attempt is Data || attempt is Quiet),
        elapsed_ns <= 3_000_000_000,
    ensures
        final(session).phase == (Phase::Connecting { port }),
        r is Connect,
        r->addr@ == old(session).server_host@ + ":"@ + decimal(port as nat),
        r->pause_ms == 40,
{
    law_connecting_is_retried(old(session).target(), port, attempt, elapsed_ns);
    assert((final(session).phase, r.doing()) == next(
        old(session).target(),
        old(session).phase,
        Report::Tried { attempt, elapsed_ns },
    ));
}

} // verus!
