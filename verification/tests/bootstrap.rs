use phone_control::bootstrap::{
    remote_server_size, size_command_text, Action, Attempt, Bootstrap, Phase, Report,
};
use phone_control::scrcpy_client::{
    AdbReply, ScrcpyRuntimeInfo, StreamOptions, REMOTE_SERVER_PATH,
};

fn begin() -> (Bootstrap, Action) {
    Bootstrap::begin(
        "S1",
        "10.0.0.5",
        5037,
        &StreamOptions::default(),
        ScrcpyRuntimeInfo {
            version: "4.1".to_string(),
            server_path: "/local/scrcpy-server".to_string(),
            server_size: 90980,
        },
        0xab,
    )
}

fn ran(success: bool, stdout: &str, stderr: &str) -> Report {
    Report::Adb(AdbReply::Ran {
        success,
        stdout: stdout.to_string(),
        stderr: stderr.to_string(),
    })
}

fn not_run() -> Report {
    Report::Adb(AdbReply::NotRun("no such file".to_string()))
}

fn tried(attempt: Attempt, ms: u128) -> Report {
    Report::Tried {
        attempt,
        elapsed_ns: ms * 1_000_000,
    }
}

const DEVICE: [&str; 6] = ["-H", "10.0.0.5", "-P", "5037", "-s", "S1"];

fn run_args(a: Action) -> Vec<String> {
    match a {
        Action::RunAdb { args } => {
            assert_eq!(args[..6], DEVICE);
            args[6..].to_vec()
        }
        _ => panic!("expected to run adb"),
    }
}

fn spawn_args(a: Action) -> Vec<String> {
    match a {
        Action::SpawnAdb { args } => {
            assert_eq!(args[..6], DEVICE);
            args[6..].to_vec()
        }
        _ => panic!("expected to spawn adb"),
    }
}

fn connect_to(a: Action) -> (String, u64) {
    match a {
        Action::Connect { addr, pause_ms } => (addr, pause_ms),
        _ => panic!("expected to connect"),
    }
}

fn failure(a: Action) -> (String, bool, Option<Vec<String>>) {
    match a {
        Action::Fail {
            error,
            terminate_server,
            remove_forward,
        } => (error, terminate_server, remove_forward),
        _ => panic!("expected to fail"),
    }
}

/// A session that has just been told to connect to port 40001.
fn connecting() -> Bootstrap {
    let (mut b, _) = begin();
    b.step(ran(true, "90980\n", ""));
    b.step(Report::Spawned(Ok(())));
    b.step(ran(true, "40001\n", ""));
    assert_eq!(b.phase, Phase::Connecting { port: 40001 });
    b
}

#[test]
fn a_whole_session_with_a_stale_server_file() {
    let (mut b, first) = begin();
    let probe = run_args(first);
    assert_eq!(probe[..3], ["shell", "sh", "-c"]);
    assert_eq!(
        probe[3],
        format!(
            "stat -c %s {0} 2>/dev/null || wc -c < {0} 2>/dev/null || echo 0",
            REMOTE_SERVER_PATH
        )
    );
    let push = run_args(b.step(ran(true, "1\n", "")));
    assert_eq!(push, ["push", "/local/scrcpy-server", REMOTE_SERVER_PATH]);
    let launch = spawn_args(b.step(ran(true, "1 file pushed", "")));
    assert_eq!(launch[0], "shell");
    assert_eq!(launch[1], format!("CLASSPATH={REMOTE_SERVER_PATH}"));
    assert_eq!(launch[6], "scid=000000ab");
    let forward = run_args(b.step(Report::Spawned(Ok(()))));
    assert_eq!(
        forward,
        ["forward", "tcp:0", "localabstract:scrcpy_000000ab"]
    );
    let target = connect_to(b.step(ran(true, "40001\n", "")));
    assert_eq!(target, ("10.0.0.5:40001".to_string(), 0));
    let again = connect_to(b.step(tried(Attempt::Eof, 10)));
    assert_eq!(again, ("10.0.0.5:40001".to_string(), 40));
    match b.step(tried(Attempt::Data, 60)) {
        Action::Connected { local_port } => assert_eq!(local_port, 40001),
        _ => panic!("expected to be connected"),
    }
    assert_eq!(b.phase, Phase::Ended);
}

#[test]
fn a_matching_server_file_is_not_pushed() {
    let (mut b, _) = begin();
    let launch = spawn_args(b.step(ran(true, "90980\n", "")));
    assert_eq!(launch[0], "shell");
    assert_eq!(b.phase, Phase::Launching);
}

#[test]
fn an_unknown_remote_size_counts_as_zero() {
    let size = |r| match r {
        Report::Adb(reply) => remote_server_size(reply),
        _ => panic!("not a reply"),
    };
    assert_eq!(size(ran(true, "90980\n", "")), 90980);
    assert_eq!(size(ran(true, "?", "")), 0);
    assert_eq!(size(ran(false, "90980\n", "")), 0);
    assert_eq!(size(not_run()), 0);
    assert!(size_command_text().contains(REMOTE_SERVER_PATH));
    let (mut b, _) = begin();
    b.step(not_run());
    assert_eq!(b.phase, Phase::Pushing);
}

#[test]
fn failures_before_the_server_runs_need_no_cleanup() {
    let (mut b, _) = begin();
    b.step(ran(true, "1", ""));
    let f = failure(b.step(ran(false, "", "no space left")));
    assert_eq!(f, ("adb push failed: no space left".to_string(), false, None));

    let (mut b, _) = begin();
    b.step(ran(true, "1", ""));
    let f = failure(b.step(not_run()));
    assert_eq!(f, ("adb spawn failed: no such file".to_string(), false, None));

    let (mut b, _) = begin();
    b.step(ran(true, "90980", ""));
    let f = failure(b.step(Report::Spawned(Err("no such file".to_string()))));
    assert_eq!(f, ("adb spawn failed: no such file".to_string(), false, None));
    assert_eq!(b.phase, Phase::Ended);
}

#[test]
fn a_refused_forward_terminates_the_server() {
    let forwarding = || {
        let (mut b, _) = begin();
        b.step(ran(true, "90980", ""));
        b.step(Report::Spawned(Ok(())));
        b
    };
    let f = failure(forwarding().step(ran(false, "", "device offline")));
    assert_eq!(
        f,
        ("adb forward failed: device offline".to_string(), true, None)
    );
    let f = failure(forwarding().step(not_run()));
    assert_eq!(f.0, "adb spawn failed: no such file");
    for (stdout, why) in [
        ("", "cannot parse integer from empty string"),
        ("port", "invalid digit found in string"),
        ("70000", "number too large to fit in target type"),
    ] {
        let f = failure(forwarding().step(ran(true, stdout, "")));
        assert_eq!(f.0, format!("failed to parse allocated port: {why}"));
    }
}

#[test]
fn a_quiet_connection_is_good() {
    let mut b = connecting();
    match b.step(tried(Attempt::Quiet, 300)) {
        Action::Connected { local_port } => assert_eq!(local_port, 40001),
        _ => panic!("expected to be connected"),
    }
}

#[test]
fn connecting_is_given_up_after_three_seconds() {
    let remove = [&DEVICE[..], &["forward", "--remove", "tcp:40001"][..]].concat();
    for (attempt, why) in [
        (Attempt::Eof, "immediate EOF (server not ready)"),
        (Attempt::Refused("refused".to_string()), "refused"),
        (Attempt::Unreadable("reset".to_string()), "peek failed: reset"),
    ] {
        let mut b = connecting();
        connect_to(b.step(tried(Attempt::Eof, 3000)));
        let (error, terminate, removed) = failure(b.step(tried(attempt, 3001)));
        assert_eq!(error, format!("tcp connect failed after retries: {why}"));
        assert!(terminate);
        assert_eq!(removed.unwrap(), remove);
        assert_eq!(b.phase, Phase::Ended);
    }
}
