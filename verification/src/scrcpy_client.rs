//! What it takes to start a scrcpy server on a device: its command line, the
//! tunnel to it, and what is known of the local scrcpy installation.
use std::collections::hash_map::DefaultHasher;
use std::collections::hash_map::RandomState;
use std::hash::BuildHasher;
use std::hash::Hasher;

use vstd::prelude::*;
use vstd::std_specs::hash::DefaultHasherAdditionalSpecFns;
use vstd::string::StringSliceAdditionalSpecFns;

use crate::binaries::{answers, first_approved, total};
use crate::paths::{join_path, joined_path, parent_of, parent_path, Platform};
use crate::text::{
    all_digits, all_white, append_decimal, chars_of, concat2, decimal, decimal_value, digit_char,
    first_two_words, hex, is_digit, is_white, join, joined, law_decimal_round_trip,
    law_missing_words, law_trimming_ignores_white_ends, law_words, lemma_read_digits,
    lemma_run_end, no_white, parse_number, parsed, push_text, run_end, scan, second_word, trim,
    trimmed, with_decimal, with_hex8, IntError, Run,
};

verus! {

// ---------------------------------------------------------------------------
// Server command line
// ---------------------------------------------------------------------------

/// Limits that the video stream is asked to keep.
#[derive(Debug, Clone, Copy, PartialEq, Eq, Structural)]
pub struct StreamOptions {
    /// Longer side of the video, in pixels.
    pub max_size: u32,
    pub max_fps: u32,
    /// Bits per second.
    pub bit_rate: u32,
}

impl Default for StreamOptions {
    fn default() -> (r: Self)
        ensures
            r == (StreamOptions { max_size: 720, max_fps: 30, bit_rate: 4_000_000 }),
    {
        StreamOptions { max_size: 720, max_fps: 30, bit_rate: 4_000_000 }
    }
}

/// Remote path for *our* copy of `scrcpy-server`.
///
/// Deliberately not `/data/local/tmp/scrcpy-server.jar`: the standalone scrcpy
/// client pushes to that exact path and deletes it when it exits.
pub const REMOTE_SERVER_PATH: &'static str = "/data/local/tmp/phone-control-scrcpy-server.jar";

/// The server option that turns on the stream's own metadata, renamed in 4.0.
pub open spec fn meta_option(ver: Seq<char>) -> Seq<char> {
    if major_of(ver) >= 4 {
        "send_stream_meta=true"@
    } else {
        "send_codec_meta=true"@
    }
}

/// The tokens that follow `adb -s SERIAL shell` to start the server.
pub open spec fn start_argv(
    remote_path: Seq<char>,
    ver: Seq<char>,
    scid: u32,
    opts: StreamOptions,
) -> Seq<Seq<char>> {
    seq![
        "CLASSPATH="@ + remote_path,
        "app_process"@,
        "/"@,
        "com.genymobile.scrcpy.Server"@,
        ver,
        "scid="@ + hex(scid as nat, 8),
        "log_level=info"@,
        "audio=false"@,
        "control=false"@,
        "tunnel_forward=true"@,
        "stay_awake=true"@,
        "max_size="@ + decimal(opts.max_size as nat),
        "max_fps="@ + decimal(opts.max_fps as nat),
        "video_bit_rate="@ + decimal(opts.bit_rate as nat),
        "video_codec_options=i-frame-interval=1"@,
        "send_device_meta=false"@,
        meta_option(ver),
        "send_dummy_byte=true"@,
        "send_frame_meta=true"@,
    ]
}

/// Builds the tokens that start the scrcpy server on the device, one argument
/// each: `CLASSPATH=... app_process / com.genymobile.scrcpy.Server VER k=v ...`,
/// without an intermediate `sh -c`, which has been observed to suppress the
/// server's stderr on some devices.
///
/// `tunnel_forward=true` tells the server to *listen* on its socket instead of
/// connecting back, which it could never do through a remote ADB server.
pub fn build_start_argv(remote_path: &str, ver: &str, scid: u32, opts: &StreamOptions) -> (r: Vec<
    String,
>)
    ensures
        r.deep_view() == start_argv(remote_path@, ver@, scid, *opts),
{
    let mut argv: Vec<String> = Vec::new();
    proof {
        assert(argv.deep_view() =~= Seq::empty());
    }
    push_text(&mut argv, concat2("CLASSPATH=", remote_path).as_str());
    push_text(&mut argv, "app_process");
    push_text(&mut argv, "/");
    push_text(&mut argv, "com.genymobile.scrcpy.Server");
    push_text(&mut argv, ver);
    push_text(&mut argv, with_hex8("scid=", scid).as_str());
    push_text(&mut argv, "log_level=info");
    push_text(&mut argv, "audio=false");
    push_text(&mut argv, "control=false");
    push_text(&mut argv, "tunnel_forward=true");
    push_text(&mut argv, "stay_awake=true");
    push_text(&mut argv, with_decimal("max_size=", opts.max_size as u64).as_str());
    push_text(&mut argv, with_decimal("max_fps=", opts.max_fps as u64).as_str());
    push_text(&mut argv, with_decimal("video_bit_rate=", opts.bit_rate as u64).as_str());
    push_text(&mut argv, "video_codec_options=i-frame-interval=1");
    push_text(&mut argv, "send_device_meta=false");
    // Passing the wrong name is not an error: the server logs "Unknown server
    // option" and falls back to the default.
    if major_version_of(ver) >= 4 {
        push_text(&mut argv, "send_stream_meta=true");
    } else {
        push_text(&mut argv, "send_codec_meta=true");
    }
    push_text(&mut argv, "send_dummy_byte=true");
    push_text(&mut argv, "send_frame_meta=true");
    proof {
        assert(argv.deep_view() =~= start_argv(remote_path@, ver@, scid, *opts));
    }
    argv
}

/// The tokens of [`build_start_argv`] as one line.
pub fn build_start_cmd(remote_path: &str, ver: &str, scid: u32, opts: &StreamOptions) -> (r: String)
    ensures
        r@ == joined(start_argv(remote_path@, ver@, scid, *opts), " "@),
{
    let argv = build_start_argv(remote_path, ver, scid, opts);
    join(&argv, " ")
}

// ---------------------------------------------------------------------------
// Client id and ports
// ---------------------------------------------------------------------------

/// Makes the standard library's randomly keyed hasher state
/// (`std::collections::hash_map::RandomState::new`). Nothing is claimed of it.
pub assume_specification[ RandomState::new ]() -> (r: RandomState)
;

/// Starts a hasher from the given keys, with
/// `<RandomState as BuildHasher>::build_hasher`. Nothing is claimed of it.
#[verifier::external_body]
fn start_hasher(keys: &RandomState) -> (r: DefaultHasher)
{
    keys.build_hasher()
}

/// The client id that a 64-bit digest stands for: its low 31 bits.
pub open spec fn scid_of(digest: u64) -> u32 {
    (digest % 0x8000_0000) as u32
}

/// Cuts a digest down to a client id.
pub fn scid_from_digest(digest: u64) -> (r: u32)
    ensures
        r == scid_of(digest),
        r <= 0x7fff_ffff,
{
    (digest % 0x8000_0000) as u32
}

/// The digest of `bytes` by a hasher whose state before was `keys`.
pub open spec fn keyed_digest(keys: Seq<Seq<u8>>, bytes: Seq<u8>) -> u64 {
    DefaultHasher::spec_finish(keys.push(bytes))
}

/// A client id for a new session with `serial`: a digest of the serial under keys
/// that are chosen at random each time, so that it does not collide with a
/// previous server process that has not exited yet. Nothing is known of the keys.
pub fn new_scid(serial: &str) -> (r: u32)
    ensures
        r <= 0x7fff_ffff,
        exists|keys: Seq<Seq<u8>>|
            r == scid_of(#[trigger] keyed_digest(keys, serial.spec_bytes())),
{
    let keys = RandomState::new();
    let mut hasher = start_hasher(&keys);
    let ghost start = hasher@;
    hasher.write(serial.as_bytes());
    let digest = hasher.finish();
    proof {
        assert(digest == keyed_digest(start, serial.spec_bytes()));
    }
    scid_from_digest(digest)
}

/// What `fxhash::hash64` gives for a piece of text, on a machine that reads
/// words with the least significant byte first or last.
pub uninterp spec fn fx_hash64(little_endian: bool, text: Seq<char>) -> u64;

/// Hashes `text` with `fxhash::hash64`. The hash is a function of the text and
/// of the byte order in which the machine reads words, and of nothing else.
#[verifier::external_body]
fn fxhash_text(text: &str) -> (r: u64)
    ensures
        r == fx_hash64(vstd::endian::endianness() is Little, text@),
{
    fxhash::hash64(text)
}

/// First local port used for forwards.
pub const FIRST_LOCAL_PORT: u16 = 32200;

/// Number of local ports used for forwards.
pub const LOCAL_PORTS: u64 = 7800;

/// Port of the local video WebSocket server.
pub const WS_SERVER_PORT: u16 = 32199;

/// The local port that a hash selects.
pub open spec fn local_port_of(hash: u64) -> u16 {
    (32200 + hash % 7800) as u16
}

/// The local port that a hash selects, in `32200..=39999`.
pub fn local_port_for_hash(hash: u64) -> (r: u16)
    ensures
        r == local_port_of(hash),
        32200 <= r <= 39999,
        r != WS_SERVER_PORT,
{
    FIRST_LOCAL_PORT + (hash % LOCAL_PORTS) as u16
}

/// Local TCP port for the `adb forward` used to reach the scrcpy server of
/// `serial`, the same on every call. It never is the port of the local video
/// WebSocket server.
pub fn scrcpy_local_port(serial: &str) -> (r: u16)
    ensures
        r == local_port_of(fx_hash64(vstd::endian::endianness() is Little, serial@)),
        32200 <= r <= 39999,
        r != WS_SERVER_PORT,
{
    local_port_for_hash(fxhash_text(serial))
}

/// Address to connect to after `adb forward` succeeds. The listening socket is
/// bound on the ADB *server's* host, which need not be this machine.
pub fn forward_connect_addr(server_host: &str, local_port: u16) -> (r: String)
    ensures
        r@ == server_host@ + ":"@ + decimal(local_port as nat),
{
    let mut out = concat2(server_host, ":");
    append_decimal(&mut out, local_port as u64);
    out
}

// ---------------------------------------------------------------------------
// adb command lines and replies
// ---------------------------------------------------------------------------

/// The arguments that direct `adb` to a server.
pub open spec fn server_argv(host: Seq<char>, port: u16) -> Seq<Seq<char>> {
    seq!["-H"@, host, "-P"@, decimal(port as nat)]
}

/// The arguments that direct `adb` to the server at `host:port`.
pub fn server_args(host: &str, port: u16) -> (r: Vec<String>)
    ensures
        r.deep_view() == server_argv(host@, port),
{
    let mut args: Vec<String> = Vec::new();
    proof {
        assert(args.deep_view() =~= Seq::empty());
    }
    push_text(&mut args, "-H");
    push_text(&mut args, host);
    push_text(&mut args, "-P");
    push_text(&mut args, with_decimal("", port as u64).as_str());
    proof {
        reveal_strlit("");
        assert(""@ + decimal(port as nat) =~= decimal(port as nat));
        assert(args.deep_view() =~= server_argv(host@, port));
    }
    args
}

/// The arguments that direct `adb` to one device of a server.
pub open spec fn device_argv(host: Seq<char>, port: u16, serial: Seq<char>) -> Seq<Seq<char>> {
    server_argv(host, port) + seq!["-s"@, serial]
}

/// The arguments that direct `adb` to the device `serial` of a server.
pub fn device_args(host: &str, port: u16, serial: &str) -> (r: Vec<String>)
    ensures
        r.deep_view() == device_argv(host@, port, serial@),
{
    let mut args = server_args(host, port);
    push_text(&mut args, "-s");
    push_text(&mut args, serial);
    proof {
        assert(args.deep_view() =~= device_argv(host@, port, serial@));
    }
    args
}

/// The command line that takes a forward down again.
pub open spec fn remove_forward_argv(
    host: Seq<char>,
    port: u16,
    serial: Seq<char>,
    local_port: u16,
) -> Seq<Seq<char>> {
    device_argv(host, port, serial) + seq![
        "forward"@,
        "--remove"@,
        "tcp:"@ + decimal(local_port as nat),
    ]
}

/// The `adb` arguments that remove the forward from `local_port`. How the
/// command ends is of no interest.
pub fn remove_forward(host: &str, port: u16, serial: &str, local_port: u16) -> (r: Vec<String>)
    ensures
        r.deep_view() == remove_forward_argv(host@, port, serial@, local_port),
{
    let mut args = device_args(host, port, serial);
    push_text(&mut args, "forward");
    push_text(&mut args, "--remove");
    push_text(&mut args, with_decimal("tcp:", local_port as u64).as_str());
    proof {
        assert(args.deep_view() =~= remove_forward_argv(host@, port, serial@, local_port));
    }
    args
}

/// The command line that runs `cmd` in a shell on the device.
pub open spec fn shell_argv(host: Seq<char>, port: u16, serial: Seq<char>, cmd: Seq<char>) -> Seq<
    Seq<char>,
> {
    device_argv(host, port, serial) + seq!["shell"@, "sh"@, "-c"@, cmd]
}

/// The `adb` arguments that run `cmd` in a shell on the device.
pub fn adb_shell_args(host: &str, port: u16, serial: &str, cmd: &str) -> (r: Vec<String>)
    ensures
        r.deep_view() == shell_argv(host@, port, serial@, cmd@),
{
    let mut args = device_args(host, port, serial);
    push_text(&mut args, "shell");
    push_text(&mut args, "sh");
    push_text(&mut args, "-c");
    push_text(&mut args, cmd);
    proof {
        assert(args.deep_view() =~= shell_argv(host@, port, serial@, cmd@));
    }
    args
}

/// How running `adb` to its end came out.
pub enum AdbReply {
    /// It ran. Its output is decoded as text.
    Ran { success: bool, stdout: String, stderr: String },
    /// It could not be run, for the given reason.
    NotRun(String),
}

/// Why `adb` could not be run, as reported to users.
pub open spec fn spawn_failure(reason: Seq<char>) -> Seq<char> {
    "adb spawn failed: "@ + reason
}

/// Why `adb` could not be run, as reported to users.
pub fn adb_spawn_error(reason: &str) -> (r: String)
    ensures
        r@ == spawn_failure(reason@),
{
    concat2("adb spawn failed: ", reason)
}

/// The output of a shell command on the device, or its error output if it
/// failed, or why `adb` could not be run.
pub fn adb_shell_check(reply: AdbReply) -> (r: Result<String, String>)
    ensures
        match reply {
            AdbReply::Ran { success, stdout, stderr } => if success {
                r == Ok::<String, String>(stdout)
            } else {
                r == Err::<String, String>(stderr)
            },
            AdbReply::NotRun(reason) => r is Err && r->Err_0@ == spawn_failure(reason@),
        },
{
    match reply {
        AdbReply::Ran { success, stdout, stderr } => if success {
            Ok(stdout)
        } else {
            Err(stderr)
        },
        AdbReply::NotRun(reason) => Err(adb_spawn_error(reason.as_str())),
    }
}

/// The first run of digits in `s` as a 64-bit number, if there is one that fits.
pub open spec fn first_u64(s: Seq<char>) -> Option<u64> {
    let start = run_end(Run::NonDigits, s, 0);
    let end = run_end(Run::Digits, s, start);
    if start >= s.len() {
        None
    } else {
        match parsed(s.subrange(start, end), u64::MAX as nat) {
            Ok(v) => Some(v as u64),
            Err(_) => None,
        }
    }
}

/// The first run of digits in `s` as a number. Later runs are not tried.
pub fn parse_first_u64(s: &str) -> (r: Option<u64>)
    ensures
        r == first_u64(s@),
{
    let cs = chars_of(s);
    let start = scan(Run::NonDigits, &cs, 0);
    let end = scan(Run::Digits, &cs, start);
    if start >= cs.len() {
        return None;
    }
    match parse_number(s.substring_char(start, end), u64::MAX) {
        Ok(v) => Some(v),
        Err(_) => None,
    }
}

// ---------------------------------------------------------------------------
// The local scrcpy installation
// ---------------------------------------------------------------------------

/// The major version in a version string: the number before the first full
/// stop, or 3 (the historical layout) if that is no 32-bit number.
pub open spec fn major_of(ver: Seq<char>) -> u32 {
    match parsed(trimmed(ver.take(run_end(Run::NonDots, ver, 0))), u32::MAX as nat) {
        Ok(v) => v as u32,
        Err(_) => 3,
    }
}

/// Major version from a scrcpy version string like `4.1` or `3.2.1`.
pub fn major_version_of(ver: &str) -> (r: u32)
    ensures
        r == major_of(ver@),
{
    let cs = chars_of(ver);
    let end = scan(Run::NonDots, &cs, 0);
    proof {
        assert(ver@.subrange(0, end as int) =~= ver@.take(end as int));
    }
    let head = trim(ver.substring_char(0, end));
    match parse_number(head.as_str(), u32::MAX as u64) {
        Ok(v) => v as u32,
        Err(_) => 3,
    }
}

/// The version that `scrcpy --version` reports: the second word of its output,
/// as in `scrcpy 3.2 <...>`. `output` holds what it printed, or why it could
/// not be run.
pub fn scrcpy_version(output: Result<String, String>) -> (r: Result<String, String>)
    ensures
        match output {
            Err(e) => r is Err && r->Err_0@ == "failed to run scrcpy --version: "@ + e@,
            Ok(stdout) => match second_word(stdout@) {
                Some(word) => r is Ok && r->Ok_0@ == word,
                None => r is Err && r->Err_0@ == "failed to parse scrcpy version"@,
            },
        },
{
    match output {
        Err(e) => Err(concat2("failed to run scrcpy --version: ", e.as_str())),
        Ok(stdout) => {
            let words = first_two_words(stdout.as_str());
            match words.1 {
                Some(word) => Ok(word),
                None => Err("failed to parse scrcpy version".to_owned()),
            }
        },
    }
}

/// The server file next to the scrcpy binary `base`: packagers install it at
/// `<prefix>/share/scrcpy/scrcpy-server` alongside `<prefix>/bin/scrcpy`.
pub open spec fn server_beside(platform: Platform, base: Seq<char>) -> Seq<Seq<char>> {
    match parent_of(platform, base) {
        Some(dir) => match parent_of(platform, dir) {
            Some(prefix) => seq![joined_path(platform, prefix, "share/scrcpy/scrcpy-server"@)],
            None => Seq::empty(),
        },
        None => Seq::empty(),
    }
}

/// Where the server file may be, most likely place first: next to the binary as
/// it was found and as it is with links resolved, then the usual prefixes.
pub open spec fn server_candidates_of(
    platform: Platform,
    bin: Seq<char>,
    canonical: Option<Seq<char>>,
) -> Seq<Seq<char>> {
    server_beside(platform, bin) + (match canonical {
        Some(c) => server_beside(platform, c),
        None => Seq::empty(),
    }) + seq![
        "/opt/homebrew/opt/scrcpy/share/scrcpy/scrcpy-server"@,
        "/usr/local/opt/scrcpy/share/scrcpy/scrcpy-server"@,
        "/usr/share/scrcpy/scrcpy-server"@,
        "/usr/local/share/scrcpy/scrcpy-server"@,
    ]
}

fn push_server_beside(list: &mut Vec<String>, platform: Platform, base: &str)
    ensures
        final(list).deep_view() == old(list).deep_view() + server_beside(platform, base@),
{
    if let Some(dir) = parent_path(platform, base) {
        if let Some(prefix) = parent_path(platform, dir.as_str()) {
            list.push(join_path(platform, prefix.as_str(), "share/scrcpy/scrcpy-server"));
        }
    }
    proof {
        assert(list.deep_view() =~= old(list).deep_view() + server_beside(platform, base@));
    }
}

/// Where the server file may be. `canonical` is the path of the binary with
/// links resolved, where that is known.
pub fn server_candidates(platform: Platform, bin: &str, canonical: &Option<String>) -> (r: Vec<
    String,
>)
    ensures
        r.deep_view() == server_candidates_of(platform, bin@, canonical.deep_view()),
{
    let mut list: Vec<String> = Vec::new();
    proof {
        assert(list.deep_view() =~= Seq::empty());
    }
    push_server_beside(&mut list, platform, bin);
    if let Some(c) = canonical {
        push_server_beside(&mut list, platform, c.as_str());
    }
    push_text(&mut list, "/opt/homebrew/opt/scrcpy/share/scrcpy/scrcpy-server");
    push_text(&mut list, "/usr/local/opt/scrcpy/share/scrcpy/scrcpy-server");
    push_text(&mut list, "/usr/share/scrcpy/scrcpy-server");
    push_text(&mut list, "/usr/local/share/scrcpy/scrcpy-server");
    proof {
        assert(list.deep_view() =~= server_candidates_of(platform, bin@, canonical.deep_view()));
    }
    list
}

/// The local server file: the value of `SCRCPY_SERVER_PATH` as it is if it is set,
/// else the first candidate that the probe calls a regular file.
pub fn scrcpy_server_installed_path<F: Fn(&str) -> bool>(
    platform: Platform,
    override_value: Option<String>,
    bin: &str,
    canonical: &Option<String>,
    is_file: &F,
) -> (r: Result<String, String>)
    requires
        total(*is_file),
    ensures
        match override_value {
            Some(p) => r == Ok::<String, String>(p),
            None => {
                let candidates = server_candidates_of(platform, bin@, canonical.deep_view());
                match r {
                    Ok(p) => first_approved(*is_file, candidates, Some(p@)),
                    Err(e) => first_approved(*is_file, candidates, None) && e@
                        == "scrcpy-server path not found (set SCRCPY_SERVER_PATH)"@,
                }
            },
        },
{
    if let Some(p) = override_value {
        return Ok(p);
    }
    let list = server_candidates(platform, bin, canonical);
    let ghost candidates = list.deep_view();
    let mut i: usize = 0;
    while i < list.len()
        invariant
            i <= list.len(),
            total(*is_file),
            candidates == list.deep_view(),
            candidates == server_candidates_of(platform, bin@, canonical.deep_view()),
            override_value is None,
            forall|j: int| 0 <= j < i ==> answers(*is_file, #[trigger] candidates[j], false),
        decreases list.len() - i,
    {
        let hit = is_file(list[i].as_str());
        proof {
            assert(candidates[i as int] == list[i as int]@);
            assert(answers(*is_file, list[i as int]@, hit));
        }
        if hit {
            return Ok(list[i].clone());
        }
        i += 1;
    }
    Err("scrcpy-server path not found (set SCRCPY_SERVER_PATH)".to_owned())
}

/// What is known of the local scrcpy installation.
pub struct ScrcpyRuntimeInfo {
    pub version: String,
    /// The local server file.
    pub server_path: String,
    /// Its size in bytes. Never zero when it comes from a probe.
    pub server_size: u64,
}

impl Clone for ScrcpyRuntimeInfo {
    fn clone(&self) -> (r: Self)
        ensures
            r == *self,
    {
        ScrcpyRuntimeInfo {
            version: self.version.clone(),
            server_path: self.server_path.clone(),
            server_size: self.server_size,
        }
    }
}

/// Puts a probe of the installation together from the version, the path of the
/// server file, and its size (or why that could not be read). The first of these
/// that failed decides the error; an empty file counts as a failure.
pub fn probe_scrcpy_runtime(
    version: Result<String, String>,
    server_path: Result<String, String>,
    server_size: Result<u64, String>,
) -> (r: Result<ScrcpyRuntimeInfo, String>)
    ensures
        match (version, server_path, server_size) {
            (Err(e), _, _) => r == Err::<ScrcpyRuntimeInfo, String>(e),
            (Ok(_), Err(e), _) => r == Err::<ScrcpyRuntimeInfo, String>(e),
            (Ok(_), Ok(_), Err(e)) => r is Err && r->Err_0@ == "scrcpy-server metadata failed: "@
                + e@,
            (Ok(v), Ok(p), Ok(n)) => if n == 0 {
                r is Err && r->Err_0@ == "scrcpy-server file is empty"@
            } else {
                r == Ok::<ScrcpyRuntimeInfo, String>(
                    ScrcpyRuntimeInfo { version: v, server_path: p, server_size: n },
                )
            },
        },
{
    let version = match version {
        Ok(v) => v,
        Err(e) => return Err(e),
    };
    let server_path = match server_path {
        Ok(p) => p,
        Err(e) => return Err(e),
    };
    let server_size = match server_size {
        Ok(n) => n,
        Err(e) => return Err(concat2("scrcpy-server metadata failed: ", e.as_str())),
    };
    if server_size == 0 {
        return Err("scrcpy-server file is empty".to_owned());
    }
    Ok(ScrcpyRuntimeInfo { version, server_path, server_size })
}

/// The installation, probed at most until a probe succeeds.
///
/// Only a *successful* probe is cached. A cached failure would outlive its
/// cause: installing scrcpy would not help until the application is restarted.
pub fn scrcpy_runtime_info<F: FnOnce() -> Result<ScrcpyRuntimeInfo, String>>(
    cache: &mut Option<ScrcpyRuntimeInfo>,
    probe: F,
) -> (r: Result<ScrcpyRuntimeInfo, String>)
    requires
        call_requires(probe, ()),
    ensures
        match *old(cache) {
            Some(info) => r == Ok::<ScrcpyRuntimeInfo, String>(info) && *final(cache) == *old(
                cache,
            ),
            None => call_ensures(probe, (), r) && *final(cache) == (match r {
                Ok(info) => Some(info),
                Err(_) => None,
            }),
        },
{
    if let Some(info) = &*cache {
        return Ok(info.clone());
    }
    match probe() {
        Ok(info) => {
            *cache = Some(info.clone());
            Ok(info)
        },
        Err(e) => Err(e),
    }
}

/// Major version of the local scrcpy, used to pick the wire layout: 3 when
/// nothing is known of the installation.
pub fn scrcpy_major_version(info: &Result<ScrcpyRuntimeInfo, String>) -> (r: u32)
    ensures
        r == (match info {
            Ok(i) => major_of(i.version@),
            Err(_) => 3,
        }),
{
    match info {
        Ok(i) => major_version_of(i.version.as_str()),
        Err(_) => 3,
    }
}

// ---------------------------------------------------------------------------
// Laws
// ---------------------------------------------------------------------------

/// Whether `s` holds no space.
pub open spec fn has_no_space(s: Seq<char>) -> bool {
    forall|i: int| 0 <= i < s.len() ==> #[trigger] s[i] != ' '
}

/// Each token of the server command line stands alone: unless the path or the
/// version brings one along, no token holds a space.
pub proof fn law_start_tokens_stand_alone(
    remote_path: Seq<char>,
    ver: Seq<char>,
    scid: u32,
    opts: StreamOptions,
)
    requires
        has_no_space(remote_path),
        has_no_space(ver),
    ensures
        forall|k: int|
            0 <= k < start_argv(remote_path, ver, scid, opts).len() ==> has_no_space(
                #[trigger] start_argv(remote_path, ver, scid, opts)[k],
            ),
{
    reveal_strlit("CLASSPATH=");
    reveal_strlit("app_process");
    reveal_strlit("/");
    reveal_strlit("com.genymobile.scrcpy.Server");
    reveal_strlit("scid=");
    reveal_strlit("log_level=info");
    reveal_strlit("audio=false");
    reveal_strlit("control=false");
    reveal_strlit("tunnel_forward=true");
    reveal_strlit("stay_awake=true");
    reveal_strlit("max_size=");
    reveal_strlit("max_fps=");
    reveal_strlit("video_bit_rate=");
    reveal_strlit("video_codec_options=i-frame-interval=1");
    reveal_strlit("send_device_meta=false");
    reveal_strlit("send_stream_meta=true");
    reveal_strlit("send_codec_meta=true");
    reveal_strlit("send_dummy_byte=true");
    reveal_strlit("send_frame_meta=true");
    lemma_hex_chars(scid as nat, 8);
    law_decimal_round_trip(opts.max_size as nat, opts.max_size as nat);
    law_decimal_round_trip(opts.max_fps as nat, opts.max_fps as nat);
    law_decimal_round_trip(opts.bit_rate as nat, opts.bit_rate as nat);
    assert(has_no_space("CLASSPATH="@ + remote_path));
    assert(has_no_space("scid="@ + hex(scid as nat, 8)));
    assert(has_no_space("max_size="@ + decimal(opts.max_size as nat)));
    assert(has_no_space("max_fps="@ + decimal(opts.max_fps as nat)));
    assert(has_no_space("video_bit_rate="@ + decimal(opts.bit_rate as nat)));
}

proof fn lemma_hex_chars(n: nat, width: nat)
    ensures
        hex(n, width).len() == width,
        has_no_space(hex(n, width)),
    decreases width,
{
    if width > 0 {
        lemma_hex_chars(n / 16, (width - 1) as nat);
    }
}

/// Whatever the caller asks for, the server is told to listen for a forwarded
/// connection, to keep the device awake, to send frame metadata, and to leave
/// audio and control alone.
pub proof fn law_start_always_listens(
    remote_path: Seq<char>,
    ver: Seq<char>,
    scid: u32,
    opts: StreamOptions,
)
    ensures
        start_argv(remote_path, ver, scid, opts).contains("tunnel_forward=true"@),
        start_argv(remote_path, ver, scid, opts).contains("stay_awake=true"@),
        start_argv(remote_path, ver, scid, opts).contains("send_frame_meta=true"@),
        start_argv(remote_path, ver, scid, opts).contains("audio=false"@),
        start_argv(remote_path, ver, scid, opts).contains("control=false"@),
{
    let argv = start_argv(remote_path, ver, scid, opts);
    assert(argv[9] == "tunnel_forward=true"@);
    assert(argv[10] == "stay_awake=true"@);
    assert(argv[18] == "send_frame_meta=true"@);
    assert(argv[7] == "audio=false"@);
    assert(argv[8] == "control=false"@);
}

spec fn pow16(width: nat) -> nat
    decreases width,
{
    if width == 0 {
        1
    } else {
        16 * pow16((width - 1) as nat)
    }
}

/// Client ids identify sessions: two different ids are written differently.
pub proof fn law_scid_text_identifies(a: u32, b: u32)
    requires
        hex(a as nat, 8) == hex(b as nat, 8),
    ensures
        a == b,
{
    reveal_with_fuel(pow16, 9);
    lemma_hex_injective(a as nat, b as nat, 8);
}

proof fn lemma_hex_injective(a: nat, b: nat, width: nat)
    requires
        a < pow16(width),
        b < pow16(width),
        hex(a, width) == hex(b, width),
    ensures
        a == b,
    decreases width,
{
    if width > 0 {
        let ha = hex(a / 16, (width - 1) as nat);
        let hb = hex(b / 16, (width - 1) as nat);
        assert(ha =~= hex(a, width).drop_last());
        assert(hb =~= hex(b, width).drop_last());
        assert(hex(a, width).last() == digit_char((a % 16) as int));
        assert(hex(b, width).last() == digit_char((b % 16) as int));
        lemma_hex_injective(a / 16, b / 16, (width - 1) as nat);
    }
}

/// The first run of digits in a text is the number that is read, whatever stands
/// before and behind it.
pub proof fn law_first_number_is_read(before: Seq<char>, n: u64, after: Seq<char>)
    requires
        forall|k: int| 0 <= k < before.len() ==> !is_digit(#[trigger] before[k]),
        after.len() == 0 || !is_digit(after[0]),
    ensures
        first_u64(before + decimal(n as nat) + after) == Some(n),
{
    let digits = decimal(n as nat);
    let s = before + digits + after;
    let a = before.len() as int;
    let b = a + digits.len();
    law_decimal_round_trip(n as nat, u64::MAX as nat);
    lemma_run_end(Run::NonDigits, s, 0);
    let start = run_end(Run::NonDigits, s, 0);
    assert(s[a] == digits[0]);
    assert(is_digit(digits[0]));
    if start < a {
        assert(s[start] == before[start]);
    }
    assert(start == a);
    lemma_run_end(Run::Digits, s, a);
    let end = run_end(Run::Digits, s, a);
    if end < b {
        assert(s[end] == digits[end - a]);
    }
    if end > b {
        assert(s[b] == after[0]);
    }
    assert(end == b);
    assert(s.subrange(a, b) =~= digits);
}

/// A number is read exactly when the first run of digits fits 64 bits; where it does
/// not, later runs are not tried.
pub proof fn law_first_run_decides(before: Seq<char>, digits: Seq<char>, after: Seq<char>)
    requires
        forall|k: int| 0 <= k < before.len() ==> !is_digit(#[trigger] before[k]),
        all_digits(digits),
        digits.len() > 0,
        after.len() == 0 || !is_digit(after[0]),
    ensures
        first_u64(before) is None,
        decimal_value(digits) <= u64::MAX ==> first_u64(before + digits + after) == Some(
            decimal_value(digits) as u64,
        ),
        decimal_value(digits) > u64::MAX ==> first_u64(before + digits + after) is None,
{
    let s = before + digits + after;
    let a = before.len() as int;
    let b = a + digits.len();
    lemma_run_end(Run::NonDigits, before, 0);
    lemma_run_end(Run::NonDigits, s, 0);
    let start = run_end(Run::NonDigits, s, 0);
    assert(s[a] == digits[0]);
    assert(is_digit(digits[0]));
    if start < a {
        assert(s[start] == before[start]);
    }
    assert(start == a);
    lemma_run_end(Run::Digits, s, a);
    let end = run_end(Run::Digits, s, a);
    if end < b {
        assert(s[end] == digits[end - a]);
    }
    if end > b {
        assert(s[b] == after[0]);
    }
    assert(end == b);
    assert(s.subrange(a, b) =~= digits);
    lemma_read_digits(digits, u64::MAX as nat);
    if run_end(Run::NonDigits, before, 0) < before.len() {
        assert(!is_digit(before[run_end(Run::NonDigits, before, 0)]));
    }
}

/// The major version is the number before the first full stop: `4` of `4.1`, `12` of
/// `12`. White space around it does not matter.
pub proof fn law_major_version_is_the_leading_number(
    front: Seq<char>,
    n: u32,
    back: Seq<char>,
    rest: Seq<char>,
)
    requires
        all_white(front),
        all_white(back),
        rest.len() == 0 || rest[0] == '.',
    ensures
        major_of(front + decimal(n as nat) + back + rest) == n,
{
    let digits = decimal(n as nat);
    let head = front + digits + back;
    let s = head + rest;
    law_decimal_round_trip(n as nat, u32::MAX as nat);
    lemma_run_end(Run::NonDots, s, 0);
    let end = run_end(Run::NonDots, s, 0);
    if end < head.len() {
        if end < front.len() {
            assert(s[end] == front[end]);
        } else if end < front.len() + digits.len() {
            assert(s[end] == digits[end - front.len()]);
            assert(is_digit(digits[end - front.len()]));
        } else {
            assert(s[end] == back[end - front.len() - digits.len()]);
        }
    }
    if end > head.len() {
        assert(s[head.len() as int] == rest[0]);
    }
    assert(s.take(end) =~= head);
    assert(is_digit(digits[0]) && is_digit(digits[digits.len() - 1]));
    law_trimming_ignores_white_ends(front, digits, back);
}

/// A version whose part before the first full stop is no 32-bit number counts as 3.
pub proof fn law_unknown_major_version_is_three(head: Seq<char>, rest: Seq<char>)
    requires
        forall|k: int| 0 <= k < head.len() ==> #[trigger] head[k] != '.',
        rest.len() == 0 || rest[0] == '.',
        parsed(trimmed(head), 4294967295) is Err,
    ensures
        major_of(head + rest) == 3,
{
    let s = head + rest;
    lemma_run_end(Run::NonDots, s, 0);
    let end = run_end(Run::NonDots, s, 0);
    if end < head.len() {
        assert(s[end] == head[end]);
    }
    if end > head.len() {
        assert(s[head.len() as int] == rest[0]);
    }
    assert(s.take(end) =~= head);
}

/// What starts the server, token by token: each option that the caller sets is
/// passed on as it is, and every other one is fixed.
pub proof fn law_start_tokens(
    remote_path: Seq<char>,
    ver: Seq<char>,
    scid: u32,
    opts: StreamOptions,
)
    ensures
        ({
            let argv = start_argv(remote_path, ver, scid, opts);
            &&& argv.len() == 19
            &&& argv[0] == "CLASSPATH="@ + remote_path
            &&& argv[1] == "app_process"@
            &&& argv[2] == "/"@
            &&& argv[3] == "com.genymobile.scrcpy.Server"@
            &&& argv[4] == ver
            &&& argv[5] == "scid="@ + hex(scid as nat, 8)
            &&& argv[6] == "log_level=info"@
            &&& argv[7] == "audio=false"@
            &&& argv[8] == "control=false"@
            &&& argv[9] == "tunnel_forward=true"@
            &&& argv[10] == "stay_awake=true"@
            &&& argv[11] == "max_size="@ + decimal(opts.max_size as nat)
            &&& argv[12] == "max_fps="@ + decimal(opts.max_fps as nat)
            &&& argv[13] == "video_bit_rate="@ + decimal(opts.bit_rate as nat)
            &&& argv[14] == "video_codec_options=i-frame-interval=1"@
            &&& argv[15] == "send_device_meta=false"@
            &&& major_of(ver) >= 4 ==> argv[16] == "send_stream_meta=true"@
            &&& major_of(ver) < 4 ==> argv[16] == "send_codec_meta=true"@
            &&& argv[17] == "send_dummy_byte=true"@
            &&& argv[18] == "send_frame_meta=true"@
        }),
{
}

/// The options of the caller change their own tokens and no others.
pub proof fn law_options_change_their_own_tokens(
    remote_path: Seq<char>,
    ver: Seq<char>,
    scid: u32,
    one: StreamOptions,
    two: StreamOptions,
    k: int,
)
    requires
        0 <= k < start_argv(remote_path, ver, scid, one).len(),
        start_argv(remote_path, ver, scid, one)[k] != start_argv(remote_path, ver, scid, two)[k],
    ensures
        k == 11 && one.max_size != two.max_size || k == 12 && one.max_fps != two.max_fps || k == 13
            && one.bit_rate != two.bit_rate,
{
}

/// The one line is the tokens, in order, with single spaces between them.
pub proof fn law_start_line(
    remote_path: &str,
    ver: &str,
    scid: u32,
    opts: &StreamOptions,
    argv: Vec<String>,
    line: String,
)
    requires
        call_ensures(build_start_argv, (remote_path, ver, scid, opts), argv),
        call_ensures(build_start_cmd, (remote_path, ver, scid, opts), line),
    ensures
        line@ == joined(argv.deep_view(), " "@),
        argv@.len() == 19,
{
    assert(argv.deep_view().len() == argv@.len());
}

/// Client ids keep the low 31 bits of a digest, so two digests that agree in them
/// give one id, and every id below the limit comes from some digest.
pub proof fn law_client_ids_are_31_bits(a: u64, b: u64)
    ensures
        scid_of(a) < 0x8000_0000,
        a % 0x8000_0000 == b % 0x8000_0000 <==> scid_of(a) == scid_of(b),
        a < 0x8000_0000 ==> scid_of(a) == a,
{
}

/// Ports are spread over the whole range, hash by hash, and none is outside.
pub proof fn law_ports_cover_their_range(hash: u64, port: u16)
    ensures
        32200 <= local_port_of(hash) <= 39999,
        local_port_of(hash) != 32199,
        hash < 7799 ==> local_port_of((hash + 1) as u64) == local_port_of(hash) + 1,
        hash <= u64::MAX - 7800 ==> local_port_of((hash + 7800) as u64) == local_port_of(hash),
        32200 <= port <= 39999 ==> local_port_of((port - 32200) as u64) == port,
{
}

/// Two sessions with one device are forwarded through one port, whenever they are
/// started.
pub proof fn law_one_device_has_one_port(serial: &str, again: &str, a: u16, b: u16)
    requires
        call_ensures(scrcpy_local_port, (serial,), a),
        call_ensures(scrcpy_local_port, (again,), b),
        serial@ == again@,
    ensures
        a == b,
        32200 <= a <= 39999,
{
}

/// The address names the server's host and the port, in decimal.
pub proof fn law_addresses(server_host: &str, local_port: u16, r: String)
    requires
        call_ensures(forward_connect_addr, (server_host, local_port), r),
    ensures
        r@.len() > server_host@.len() + 1,
        r@.take(server_host@.len() as int) =~= server_host@,
        r@[server_host@.len() as int] == ':',
        parsed(r@.skip(server_host@.len() as int + 1), 65535) == Ok::<nat, IntError>(local_port as nat),
{
    reveal_strlit(":");
    law_decimal_round_trip(local_port as nat, 65535);
    assert(r@.skip(server_host@.len() as int + 1) =~= decimal(local_port as nat));
}

/// The command lines around `adb`, token by token.
pub proof fn law_adb_tokens(
    host: Seq<char>,
    port: u16,
    serial: Seq<char>,
    local_port: u16,
    cmd: Seq<char>,
)
    ensures
        server_argv(host, port) =~= seq!["-H"@, host, "-P"@, decimal(port as nat)],
        device_argv(host, port, serial) =~= seq![
            "-H"@,
            host,
            "-P"@,
            decimal(port as nat),
            "-s"@,
            serial,
        ],
        remove_forward_argv(host, port, serial, local_port) =~= seq![
            "-H"@,
            host,
            "-P"@,
            decimal(port as nat),
            "-s"@,
            serial,
            "forward"@,
            "--remove"@,
            "tcp:"@ + decimal(local_port as nat),
        ],
        shell_argv(host, port, serial, cmd) =~= seq![
            "-H"@,
            host,
            "-P"@,
            decimal(port as nat),
            "-s"@,
            serial,
            "shell"@,
            "sh"@,
            "-c"@,
            cmd,
        ],
{
}

/// A shell command that ran and succeeded gives what it printed, one that failed its
/// error output, and one that could not be run the reason.
pub proof fn law_shell_replies(reply: AdbReply, r: Result<String, String>)
    requires
        call_ensures(adb_shell_check, (reply,), r),
    ensures
        r is Ok <==> reply is Ran && reply->success,
        r is Ok ==> r->Ok_0@ == reply->stdout@,
        r is Err && reply is Ran ==> r->Err_0@ == reply->stderr@,
        reply matches AdbReply::NotRun(reason) ==> r is Err && r->Err_0@ == "adb spawn failed: "@
            + reason@,
{
}

/// The version is the second word of what `scrcpy --version` prints.
pub proof fn law_version_is_the_second_word(
    output: Result<String, String>,
    r: Result<String, String>,
    before: Seq<char>,
    first: Seq<char>,
    between: Seq<char>,
    version: Seq<char>,
    rest: Seq<char>,
)
    requires
        call_ensures(scrcpy_version, (output,), r),
    ensures
        output matches Err(e) ==> r is Err && r->Err_0@ == "failed to run scrcpy --version: "@ + e@,
        output is Ok && output->Ok_0@ == before + first + between + version + rest && all_white(
            before,
        ) && no_white(first) && first.len() > 0 && all_white(between) && between.len() > 0
            && no_white(version) && version.len() > 0 && (rest.len() == 0 || is_white(rest[0]))
            ==> r is Ok && r->Ok_0@ == version,
        output is Ok && output->Ok_0@ == before + first + between && all_white(before) && no_white(
            first,
        ) && first.len() > 0 && all_white(between) ==> r is Err && r->Err_0@
            == "failed to parse scrcpy version"@,
        output is Ok && all_white(output->Ok_0@) ==> r is Err && r->Err_0@
            == "failed to parse scrcpy version"@,
{
    if output is Ok {
        let s = output->Ok_0@;
        if s == before + first + between + version + rest && all_white(before) && no_white(first)
            && first.len() > 0 && all_white(between) && between.len() > 0 && no_white(version)
            && version.len() > 0 && (rest.len() == 0 || is_white(rest[0])) {
            law_words(before, first, between, version, rest);
        }
        if s == before + first + between && all_white(before) && no_white(first) && first.len() > 0
            && all_white(between) {
            law_missing_words(before, first, between);
        }
        if all_white(s) {
            law_missing_words(s, seq!['x'], Seq::empty());
        }
    }
}

/// Where the server file is looked for: beside the binary, beside the binary with
/// links resolved, and then in four fixed places, in this order.
pub proof fn law_server_file_places(
    platform: Platform,
    bin: Seq<char>,
    canonical: Option<Seq<char>>,
)
    ensures
        ({
            let all = server_candidates_of(platform, bin, canonical);
            let own = server_beside(platform, bin);
            let resolved = if canonical is Some {
                server_beside(platform, canonical->0)
            } else {
                Seq::empty()
            };
            let n = (own.len() + resolved.len()) as int;
            &&& all.len() == n + 4
            &&& all.take(own.len() as int) =~= own
            &&& all.subrange(own.len() as int, n) =~= resolved
            &&& all[n] == "/opt/homebrew/opt/scrcpy/share/scrcpy/scrcpy-server"@
            &&& all[n + 1] == "/usr/local/opt/scrcpy/share/scrcpy/scrcpy-server"@
            &&& all[n + 2] == "/usr/share/scrcpy/scrcpy-server"@
            &&& all[n + 3] == "/usr/local/share/scrcpy/scrcpy-server"@
        }),
{
}

/// Beside a binary there is at most one place: below the directory that holds the
/// binary's own directory, where there is one.
pub proof fn law_place_beside_a_binary(platform: Platform, base: Seq<char>)
    ensures
        server_beside(platform, base).len() <= 1,
        server_beside(platform, base).len() == 1 <==> parent_of(platform, base) is Some
            && parent_of(platform, parent_of(platform, base)->0) is Some,
        server_beside(platform, base).len() == 1 ==> server_beside(platform, base)[0]
            == joined_path(
            platform,
            parent_of(platform, parent_of(platform, base)->0)->0,
            "share/scrcpy/scrcpy-server"@,
        ),
{
}

/// A probe is put together from its three parts, and the first that failed decides.
pub proof fn law_probe_parts(
    version: Result<String, String>,
    server_path: Result<String, String>,
    server_size: Result<u64, String>,
    r: Result<ScrcpyRuntimeInfo, String>,
)
    requires
        call_ensures(probe_scrcpy_runtime, (version, server_path, server_size), r),
    ensures
        r is Ok <==> version is Ok && server_path is Ok && server_size is Ok && server_size->Ok_0 > 0,
        r is Ok ==> r->Ok_0.version@ == version->Ok_0@ && r->Ok_0.server_path@
            == server_path->Ok_0@ && r->Ok_0.server_size == server_size->Ok_0,
        version is Err ==> r->Err_0@ == version->Err_0@,
        version is Ok && server_path is Err ==> r->Err_0@ == server_path->Err_0@,
        version is Ok && server_path is Ok && server_size is Err ==> r->Err_0@
            == "scrcpy-server metadata failed: "@ + server_size->Err_0@,
        version is Ok && server_path is Ok && server_size is Ok && server_size->Ok_0 == 0
            ==> r->Err_0@ == "scrcpy-server file is empty"@,
{
}

/// The layout is picked by the version of the installation, or for version 3 where
/// nothing is known of it.
pub proof fn law_local_major_version(info: &Result<ScrcpyRuntimeInfo, String>, r: u32)
    requires
        call_ensures(scrcpy_major_version, (info,), r),
    ensures
        info is Ok ==> r == major_of(info->Ok_0.version@),
        info is Err ==> r == 3,
{
}

/// Our copy of the server file is kept apart from the one that the scrcpy client
/// deletes, in the same directory.
pub proof fn law_server_file_is_our_own()
    ensures
        REMOTE_SERVER_PATH@ == "/data/local/tmp/phone-control-scrcpy-server.jar"@,
        REMOTE_SERVER_PATH@ != "/data/local/tmp/scrcpy-server.jar"@,
{
    reveal_strlit("/data/local/tmp/phone-control-scrcpy-server.jar");
    reveal_strlit("/data/local/tmp/scrcpy-server.jar");
    assert(REMOTE_SERVER_PATH@.len() != "/data/local/tmp/scrcpy-server.jar"@.len());
}

/// The server file is the one that the override names, unseen; else the first place
/// that holds a file, every place before it having been turned down.
pub proof fn law_server_file_is_the_first_found<F: Fn(&str) -> bool>(
    platform: Platform,
    override_value: Option<String>,
    bin: &str,
    canonical: &Option<String>,
    is_file: &F,
    r: Result<String, String>,
    places: Seq<Seq<char>>,
)
    requires
        call_ensures(
            scrcpy_server_installed_path::<F>,
            (platform, override_value, bin, canonical, is_file),
            r,
        ),
        places == server_candidates_of(platform, bin@, canonical.deep_view()),
    ensures
        override_value is Some ==> r is Ok && r->Ok_0@ == override_value->0@,
        override_value is None && r is Ok ==> exists|i: int|
            {
                &&& 0 <= i < places.len()
                &&& r->Ok_0@ == #[trigger] places[i]
                &&& answers(*is_file, places[i], true)
                &&& forall|j: int| 0 <= j < i ==> answers(*is_file, #[trigger] places[j], false)
            },
        override_value is None && r is Err ==> r->Err_0@
            == "scrcpy-server path not found (set SCRCPY_SERVER_PATH)"@,
        override_value is None && r is Err ==> forall|j: int|
            0 <= j < places.len() ==> answers(*is_file, #[trigger] places[j], false),
{
}

/// An installation that is known is not probed again; otherwise the probe decides, and
/// only its success is kept.
pub proof fn law_probing_until_success<F: FnOnce() -> Result<ScrcpyRuntimeInfo, String>>(
    cache: &mut Option<ScrcpyRuntimeInfo>,
    probe: F,
    r: Result<ScrcpyRuntimeInfo, String>,
)
    requires
        call_ensures(scrcpy_runtime_info::<F>, (cache, probe), r),
    ensures
        (*old(cache)) is Some ==> r is Ok && r->Ok_0 == (*old(cache))->0 && *final(cache) == *old(
            cache,
        ),
        (*old(cache)) is None ==> call_ensures(probe, (), r),
        (*old(cache)) is None && r is Ok ==> (*final(cache)) is Some && (*final(cache))->0 == r->Ok_0,
        (*old(cache)) is None && r is Err ==> (*final(cache)) is None,
{
}

/// What the command builders return is what the laws on command lines speak of.
pub proof fn law_command_builders(
    host: &str,
    port: u16,
    serial: &str,
    local_port: u16,
    cmd: &str,
    server: Vec<String>,
    device: Vec<String>,
    removal: Vec<String>,
    shell: Vec<String>,
)
    requires
        call_ensures(server_args, (host, port), server),
        call_ensures(device_args, (host, port, serial), device),
        call_ensures(remove_forward, (host, port, serial, local_port), removal),
        call_ensures(adb_shell_args, (host, port, serial, cmd), shell),
    ensures
        server.deep_view() =~= seq!["-H"@, host@, "-P"@, decimal(port as nat)],
        device.deep_view() =~= server.deep_view() + seq!["-s"@, serial@],
        removal.deep_view() =~= device.deep_view() + seq![
            "forward"@,
            "--remove"@,
            "tcp:"@ + decimal(local_port as nat),
        ],
        shell.deep_view() =~= device.deep_view() + seq!["shell"@, "sh"@, "-c"@, cmd@],
{
}

/// What the readers return is what the laws on numbers and versions speak of.
pub proof fn law_readers(s: &str, n: Option<u64>, major: u32, hash: u64, port: u16, digest: u64, scid: u32)
    requires
        call_ensures(parse_first_u64, (s,), n),
        call_ensures(major_version_of, (s,), major),
        call_ensures(local_port_for_hash, (hash,), port),
        call_ensures(scid_from_digest, (digest,), scid),
    ensures
        n == first_u64(s@),
        major == major_of(s@),
        port == 32200 + hash % 7800,
        scid == digest % 0x8000_0000,
{
}

/// Streams are limited to 720 pixels, 30 frames and 4,000,000 bits per second unless the
/// caller says otherwise.
pub proof fn law_default_options(r: StreamOptions)
    requires
        call_ensures(StreamOptions::default, (), r),
    ensures
        r.max_size == 720,
        r.max_fps == 30,
        r.bit_rate == 4_000_000,
{
}

/// A client id is a digest of the serial, the whole of it and nothing else, cut to 31 bits.
/// The keys of the digest are anyone's guess.
pub proof fn law_new_client_ids(serial: &str, r: u32) -> (keys: Seq<Seq<u8>>)
    requires
        call_ensures(new_scid, (serial,), r),
    ensures
        r as u64 == DefaultHasher::spec_finish(keys.push(serial.spec_bytes())) % 0x8000_0000,
        r <= 0x7fff_ffff,
{
    choose|keys: Seq<Seq<u8>>| r == scid_of(#[trigger] keyed_digest(keys, serial.spec_bytes()))
}

/// The places that are looked at are those that the laws on places speak of, and a failure to
/// start `adb` is told with its reason.
pub proof fn law_places_and_reasons(
    platform: Platform,
    bin: &str,
    canonical: &Option<String>,
    places: Vec<String>,
    reason: &str,
    told: String,
)
    requires
        call_ensures(server_candidates, (platform, bin, canonical), places),
        call_ensures(adb_spawn_error, (reason,), told),
    ensures
        places.deep_view() == server_candidates_of(platform, bin@, canonical.deep_view()),
        told@ == "adb spawn failed: "@ + reason@,
{
}

} // verus!
