use phone_control::paths::Platform;
use phone_control::scrcpy_client::{
    adb_shell_args, adb_shell_check, adb_spawn_error, build_start_argv, build_start_cmd,
    device_args, forward_connect_addr, local_port_for_hash, major_version_of, new_scid,
    parse_first_u64, probe_scrcpy_runtime, remove_forward, scid_from_digest, scrcpy_local_port,
    scrcpy_major_version, scrcpy_runtime_info, scrcpy_server_installed_path, scrcpy_version,
    server_args, server_candidates, AdbReply, ScrcpyRuntimeInfo, StreamOptions,
    REMOTE_SERVER_PATH,
};
use phone_control::wire_format::{
    video_wire_format, FRAME_HEADER_LEN, SESSION_META_BIT, SESSION_META_LEN,
};

#[test]
fn build_start_cmd_includes_options() {
    let opts = StreamOptions {
        max_size: 1080,
        max_fps: 60,
        bit_rate: 8_000_000,
    };
    let cmd = build_start_cmd(REMOTE_SERVER_PATH, "3.2", 0xabcd, &opts);
    assert!(cmd.contains("max_size=1080"), "cmd={cmd}");
    assert!(cmd.contains("max_fps=60"), "cmd={cmd}");
    assert!(cmd.contains("video_bit_rate=8000000"), "cmd={cmd}");
    assert!(cmd.contains("scid=0000abcd"), "cmd={cmd}");
    assert!(
        cmd.contains(&format!("CLASSPATH={REMOTE_SERVER_PATH}")),
        "cmd={cmd}"
    );
    assert!(
        cmd.contains("com.genymobile.scrcpy.Server 3.2"),
        "cmd={cmd}"
    );
}

#[test]
fn build_start_cmd_defaults() {
    let opts = StreamOptions::default();
    let cmd = build_start_cmd("/x.jar", "3.2", 1, &opts);
    assert!(cmd.contains("max_size=720"));
    assert!(cmd.contains("max_fps=30"));
    assert!(cmd.contains("video_bit_rate=4000000"));
    assert!(cmd.contains("audio=false"));
    assert!(cmd.contains("control=false"));
    assert!(cmd.contains("send_frame_meta=true"));
}

#[test]
fn build_start_cmd_scid_padded_hex() {
    let opts = StreamOptions::default();
    // scid 0x1 should render as 8-char zero-padded hex
    let cmd = build_start_cmd("/x.jar", "3.2", 1, &opts);
    assert!(cmd.contains("scid=00000001"), "cmd={cmd}");
}

#[test]
fn build_start_cmd_has_tunnel_forward() {
    // Missing tunnel_forward=true makes the server default to reverse
    // tunnel, which exits immediately for remote ADB. Regression guard.
    let cmd = build_start_cmd("/x.jar", "3.2", 1, &StreamOptions::default());
    assert!(cmd.contains("tunnel_forward=true"), "cmd={cmd}");
}

#[test]
fn build_start_cmd_is_exact() {
    let cmd = build_start_cmd("/x.jar", "4.1", 0x7fff_ffff, &StreamOptions::default());
    assert_eq!(
        cmd,
        "CLASSPATH=/x.jar app_process / com.genymobile.scrcpy.Server 4.1 scid=7fffffff \
         log_level=info audio=false control=false tunnel_forward=true stay_awake=true \
         max_size=720 max_fps=30 video_bit_rate=4000000 \
         video_codec_options=i-frame-interval=1 send_device_meta=false send_stream_meta=true \
         send_dummy_byte=true send_frame_meta=true"
    );
}

#[test]
fn meta_option_follows_the_major_version() {
    let opts = StreamOptions::default();
    for (ver, name) in [
        ("3.9", "send_codec_meta=true"),
        ("4.0", "send_stream_meta=true"),
        ("10", "send_stream_meta=true"),
        ("nightly", "send_codec_meta=true"),
    ] {
        assert_eq!(build_start_argv("/x.jar", ver, 1, &opts)[16], name);
    }
}

#[test]
fn scrcpy_local_port_avoids_ws_server_port() {
    // WS server listens on 127.0.0.1:32199. Forward port must never land
    // on it, regardless of the serial.
    for serial in ["", "a", "3B65BQ01MW300000", "device-测试", "emulator-5554"] {
        let p = scrcpy_local_port(serial);
        assert_ne!(p, 32199, "serial={serial} -> port {p} collides with WS");
        assert!(
            (32200..=39999).contains(&p),
            "serial={serial} -> port {p} out of range"
        );
    }
}

#[test]
fn scrcpy_local_port_is_deterministic() {
    // Start/cleanup paths compute the port independently; they must agree.
    let s = "3B65BQ01MW300000";
    assert_eq!(scrcpy_local_port(s), scrcpy_local_port(s));
}

#[test]
fn scrcpy_local_port_comes_from_the_hash() {
    for serial in ["", "a", "3B65BQ01MW300000", "device-测试", "emulator-5554"] {
        let hash = fxhash::hash64(serial);
        assert_eq!(scrcpy_local_port(serial), 32200 + (hash % 7800) as u16);
    }
    assert_eq!(local_port_for_hash(0), 32200);
    assert_eq!(local_port_for_hash(7799), 39999);
    assert_eq!(local_port_for_hash(7800), 32200);
}

#[test]
fn client_ids_are_random_31_bit_numbers() {
    assert_eq!(scid_from_digest(0xffff_ffff_8000_0001), 1);
    assert_eq!(scid_from_digest(u64::MAX), 0x7fff_ffff);
    let ids: Vec<u32> = (0..8).map(|_| new_scid("emulator-5554")).collect();
    assert!(ids.iter().all(|id| *id <= 0x7fff_ffff));
    assert!(ids.iter().any(|id| *id != ids[0]), "{ids:?}");
}

#[test]
fn forward_connect_addr_uses_server_host() {
    // For a remote ADB server, `adb forward` listens on the REMOTE host.
    // Connecting to 127.0.0.1 here was the "Connection refused" bug.
    assert_eq!(
        forward_connect_addr("192.168.0.136", 32278),
        "192.168.0.136:32278"
    );
    assert_eq!(forward_connect_addr("10.0.0.5", 32200), "10.0.0.5:32200");
}

#[test]
fn forward_connect_addr_local_adb() {
    // Local ADB path still works: the server host IS 127.0.0.1.
    assert_eq!(forward_connect_addr("127.0.0.1", 32250), "127.0.0.1:32250");
    assert_eq!(forward_connect_addr("localhost", 32250), "localhost:32250");
}

/// Regression: scrcpy 4.0 shrank the video header to a bare codec id and
/// moved the video size into inline session-meta records.
#[test]
fn video_header_len_tracks_scrcpy_major() {
    assert_eq!(video_wire_format(2).header_len, 12);
    assert_eq!(video_wire_format(3).header_len, 12);
    assert_eq!(video_wire_format(4).header_len, 4);
    assert_eq!(video_wire_format(5).header_len, 4);

    assert!(!video_wire_format(3).inline_session_meta);
    assert!(video_wire_format(4).inline_session_meta);
}

/// The bug behind the black canvas: scrcpy 4.x gave bit 63 to session meta
/// and shifted the frame flags down one. Read with 3.x masks, a 4.x config
/// packet looks like a keyframe and a 4.x keyframe looks like a delta — so
/// the browser configures its decoder and then waits forever for a key
/// chunk that never comes.
#[test]
fn frame_flag_bits_shifted_in_scrcpy_4x() {
    let v3 = video_wire_format(3);
    assert_eq!(v3.config_mask, 0x8000_0000_0000_0000);
    assert_eq!(v3.key_mask, 0x4000_0000_0000_0000);

    let v4 = video_wire_format(4);
    assert_eq!(v4.config_mask, 0x4000_0000_0000_0000);
    assert_eq!(v4.key_mask, 0x2000_0000_0000_0000);

    // Exactly what `Streamer.writeFrameMeta` emits on 4.x.
    let config_hdr: u64 = 0x4000_0000_0000_0000;
    let key_hdr: u64 = 0x2000_0000_0000_0000 | 123_456;
    let delta_hdr: u64 = 123_999;

    assert!(config_hdr & v4.config_mask != 0);
    assert!(key_hdr & v4.config_mask == 0 && key_hdr & v4.key_mask != 0);
    assert!(delta_hdr & v4.config_mask == 0 && delta_hdr & v4.key_mask == 0);
    assert_eq!(key_hdr & v4.pts_mask, 123_456);

    // Session meta must not be mistaken for any of them.
    assert!(0x8000_0000_u64 << 32 & v4.config_mask == 0);

    // The pre-fix misread, kept as documentation.
    assert!(
        config_hdr & v3.key_mask != 0,
        "config looked like a keyframe"
    );
    assert!(key_hdr & v3.key_mask == 0, "keyframe looked like a delta");
}

#[test]
fn timestamp_masks_cover_the_bits_below_the_flags() {
    assert_eq!(video_wire_format(3).pts_mask, (1 << 62) - 1);
    assert_eq!(video_wire_format(4).pts_mask, (1 << 61) - 1);
    assert_eq!(SESSION_META_LEN, FRAME_HEADER_LEN);
}

/// Byte-exact check against a real scrcpy 4.1 stream from a 1080x2400
/// device at `max_size=480`: dummy byte, "h264", then a session-meta record
/// carrying 216x480.
#[test]
fn scrcpy_4x_header_then_session_meta_match_capture() {
    let captured: [u8; 17] = [
        0x00, // dummy byte
        0x68, 0x32, 0x36, 0x34, // video header: "h264" — and nothing else
        0x80, 0x00, 0x00, 0x00, // session meta: 0x80000000 marker + flag
        0x00, 0x00, 0x00, 0xd8, // width  = 216
        0x00, 0x00, 0x01, 0xe0, // height = 480
    ];
    let wire = video_wire_format(4);
    let after_dummy = &captured[1..];
    let meta = &after_dummy[wire.header_len..];
    assert_eq!(meta.len(), SESSION_META_LEN);

    // A reader sees the first 8 bytes as a frame header's pts word first.
    let as_frame_header = u64::from_be_bytes(meta[0..8].try_into().unwrap());
    assert!(
        as_frame_header & (1 << 63) != 0,
        "must be tagged as session meta"
    );
    assert_eq!(u32::from_be_bytes(meta[4..8].try_into().unwrap()), 216);
    assert_eq!(u32::from_be_bytes(meta[8..12].try_into().unwrap()), 480);
}

/// Regression: the embedded preview went permanently black whenever a
/// standalone scrcpy ran, because scrcpy deletes its own pushed server on
/// exit and we were pushing to the same filename.
#[test]
fn remote_server_path_does_not_collide_with_scrcpy() {
    assert_ne!(
        REMOTE_SERVER_PATH, "/data/local/tmp/scrcpy-server.jar",
        "standalone scrcpy deletes this path on exit; we must own a private one"
    );
    assert!(REMOTE_SERVER_PATH.starts_with("/data/local/tmp/"));
}

#[test]
fn build_start_argv_is_individual_tokens() {
    // scrcpy CLI uses individual argv tokens — NOT `sh -c "..."`. The
    // sh -c wrapper was observed to swallow server stderr on OPPO PKG110.
    // Each argument must stand alone so `adb shell` gets them as separate
    // args, the way the CLI does.
    let argv = build_start_argv(REMOTE_SERVER_PATH, "3.2", 0xabcd, &StreamOptions::default());

    // Must NOT contain spaces in any single token (would indicate a joined blob).
    // Note: some scrcpy key=value args legitimately contain multiple '=' signs
    // (e.g. "video_codec_options=i-frame-interval=1"), so we only check for spaces.
    for token in &argv {
        assert!(
            !token.contains(' '),
            "token {token:?} contains a space — still a joined blob"
        );
    }

    // Required tokens, in argv form.
    assert_eq!(argv[0], format!("CLASSPATH={REMOTE_SERVER_PATH}"));
    assert_eq!(argv[1], "app_process");
    assert_eq!(argv[2], "/");
    assert_eq!(argv[3], "com.genymobile.scrcpy.Server");
    assert_eq!(argv[4], "3.2");
    assert!(argv.iter().any(|a| a == "scid=0000abcd"));
    assert!(argv.iter().any(|a| a == "tunnel_forward=true"));
    assert!(argv.iter().any(|a| a == "audio=false"));
    assert!(argv.iter().any(|a| a == "control=false"));
    assert!(argv.iter().any(|a| a == "stay_awake=true"));
}

#[test]
fn build_start_argv_threads_stream_options() {
    let opts = StreamOptions {
        max_size: 1080,
        max_fps: 60,
        bit_rate: 8_000_000,
    };
    let argv = build_start_argv("/x.jar", "3.2", 1, &opts);
    assert!(argv.iter().any(|a| a == "max_size=1080"));
    assert!(argv.iter().any(|a| a == "max_fps=60"));
    assert!(argv.iter().any(|a| a == "video_bit_rate=8000000"));
}

#[test]
fn adb_arguments() {
    assert_eq!(server_args("10.0.0.5", 5037), ["-H", "10.0.0.5", "-P", "5037"]);
    assert_eq!(
        device_args("h", 1, "S"),
        ["-H", "h", "-P", "1", "-s", "S"]
    );
    assert_eq!(
        remove_forward("h", 1, "S", 40001),
        ["-H", "h", "-P", "1", "-s", "S", "forward", "--remove", "tcp:40001"]
    );
    assert_eq!(
        adb_shell_args("h", 1, "S", "echo hi"),
        ["-H", "h", "-P", "1", "-s", "S", "shell", "sh", "-c", "echo hi"]
    );
}

#[test]
fn shell_replies() {
    let ran = |success| AdbReply::Ran {
        success,
        stdout: "out".to_string(),
        stderr: "err".to_string(),
    };
    assert_eq!(adb_shell_check(ran(true)), Ok("out".to_string()));
    assert_eq!(adb_shell_check(ran(false)), Err("err".to_string()));
    assert_eq!(
        adb_shell_check(AdbReply::NotRun("no such file".to_string())),
        Err("adb spawn failed: no such file".to_string())
    );
    assert_eq!(adb_spawn_error("x"), "adb spawn failed: x");
}

#[test]
fn first_number_in_a_text() {
    assert_eq!(parse_first_u64("90980\n"), Some(90980));
    assert_eq!(parse_first_u64("size: 12, then 34"), Some(12));
    assert_eq!(parse_first_u64("none"), None);
    assert_eq!(parse_first_u64(""), None);
    // The first run decides, even if a later one would fit.
    assert_eq!(parse_first_u64("99999999999999999999 7"), None);
}

#[test]
fn major_versions() {
    for (ver, major) in [
        ("4.1", 4),
        ("3.2.1", 3),
        (" 5 .0", 5),
        ("12", 12),
        ("+6.0", 6),
        ("", 3),
        ("v4", 3),
        ("4294967296.0", 3),
        ("-4", 3),
        (".4", 3),
    ] {
        assert_eq!(major_version_of(ver), major, "{ver:?}");
    }
}

#[test]
fn version_output() {
    let ok = |s: &str| Ok(s.to_string());
    assert_eq!(
        scrcpy_version(ok("scrcpy 3.2 <https://github.com/Genymobile/scrcpy>\n")),
        ok("3.2")
    );
    assert_eq!(
        scrcpy_version(ok("scrcpy")),
        Err("failed to parse scrcpy version".to_string())
    );
    assert_eq!(
        scrcpy_version(Err("gone".to_string())),
        Err("failed to run scrcpy --version: gone".to_string())
    );
}

#[test]
fn server_file_candidates() {
    let fixed = [
        "/opt/homebrew/opt/scrcpy/share/scrcpy/scrcpy-server",
        "/usr/local/opt/scrcpy/share/scrcpy/scrcpy-server",
        "/usr/share/scrcpy/scrcpy-server",
        "/usr/local/share/scrcpy/scrcpy-server",
    ];
    // A bare name has no prefix.
    assert_eq!(server_candidates(Platform::Unix, "scrcpy", &None), fixed);
    let list = server_candidates(
        Platform::Unix,
        "/opt/homebrew/bin/scrcpy",
        &Some("/opt/homebrew/Cellar/scrcpy/3.2/bin/scrcpy".to_string()),
    );
    assert_eq!(list[0], "/opt/homebrew/share/scrcpy/scrcpy-server");
    assert_eq!(
        list[1],
        "/opt/homebrew/Cellar/scrcpy/3.2/share/scrcpy/scrcpy-server"
    );
    assert_eq!(list[2..], fixed);
}

#[test]
fn server_file_lookup() {
    let find = |over: Option<&str>, there: &'static str| {
        scrcpy_server_installed_path(
            Platform::Unix,
            over.map(|s| s.to_string()),
            "/usr/bin/scrcpy",
            &None,
            &|p: &str| p == there,
        )
    };
    // The override is taken without a look.
    assert_eq!(find(Some("/no/such"), ""), Ok("/no/such".to_string()));
    assert_eq!(
        find(None, "/usr/local/share/scrcpy/scrcpy-server"),
        Ok("/usr/local/share/scrcpy/scrcpy-server".to_string())
    );
    assert_eq!(
        find(None, "/elsewhere"),
        Err("scrcpy-server path not found (set SCRCPY_SERVER_PATH)".to_string())
    );
}

fn info() -> ScrcpyRuntimeInfo {
    ScrcpyRuntimeInfo {
        version: "4.1".to_string(),
        server_path: "/s".to_string(),
        server_size: 9,
    }
}

#[test]
fn probing_the_installation() {
    let ok = |s: &str| Ok::<String, String>(s.to_string());
    let err = |s: &str| Err::<String, String>(s.to_string());
    let why = |r: Result<ScrcpyRuntimeInfo, String>| r.err().unwrap();
    let good = probe_scrcpy_runtime(ok("4.1"), ok("/s"), Ok(9)).ok().unwrap();
    assert_eq!(
        (good.version.as_str(), good.server_path.as_str(), good.server_size),
        ("4.1", "/s", 9)
    );
    assert_eq!(why(probe_scrcpy_runtime(err("v"), err("p"), Ok(9))), "v");
    assert_eq!(why(probe_scrcpy_runtime(ok("4.1"), err("p"), Ok(0))), "p");
    assert_eq!(
        why(probe_scrcpy_runtime(ok("4.1"), ok("/s"), Err("m".to_string()))),
        "scrcpy-server metadata failed: m"
    );
    assert_eq!(
        why(probe_scrcpy_runtime(ok("4.1"), ok("/s"), Ok(0))),
        "scrcpy-server file is empty"
    );
}

#[test]
fn only_a_successful_probe_is_cached() {
    let mut cache = None;
    let failed = scrcpy_runtime_info(&mut cache, || Err("missing".to_string()));
    assert_eq!(failed.err().unwrap(), "missing");
    assert!(cache.is_none());
    assert_eq!(
        scrcpy_runtime_info(&mut cache, || Ok(info())).ok().unwrap().version,
        "4.1"
    );
    let again = scrcpy_runtime_info(&mut cache, || panic!("must not probe again"));
    assert_eq!(again.ok().unwrap().server_size, 9);
}

#[test]
fn local_major_version_falls_back_to_three() {
    assert_eq!(scrcpy_major_version(&Ok(info())), 4);
    assert_eq!(scrcpy_major_version(&Err("missing".to_string())), 3);
}

#[test]
fn client_ids_are_written_distinctly() {
    let opts = StreamOptions::default();
    let token = |id| build_start_argv("/x.jar", "4.1", id, &opts)[5].clone();
    assert_eq!(token(0x10), "scid=00000010");
    assert_ne!(token(0x10), token(0x01));
    assert_ne!(token(0x0fff_ffff), token(0x7fff_ffff));
}

#[test]
fn frame_words_are_read_back() {
    for major in [3, 4] {
        let w = video_wire_format(major);
        for (config, key) in [(false, false), (true, false), (false, true)] {
            for pts in [0, 123_456, w.pts_mask] {
                let word = if config { w.config_mask } else { 0 }
                    | if key { w.key_mask } else { 0 }
                    | pts;
                assert_eq!(word & w.config_mask != 0, config);
                assert_eq!(word & w.key_mask != 0, key);
                assert_eq!(word & w.pts_mask, pts);
                assert!(!w.inline_session_meta || word & SESSION_META_BIT == 0);
            }
        }
        let session = if w.inline_session_meta { SESSION_META_BIT } else { 0 };
        assert_eq!(
            session + w.config_mask + w.key_mask + w.pts_mask,
            u64::MAX,
            "fields fill the word without overlap"
        );
    }
}

#[test]
fn server_file_candidates_on_windows() {
    let beside = |bin: &str, canonical: Option<&str>| {
        let list = server_candidates(
            Platform::Windows,
            bin,
            &canonical.map(|c| c.to_string()),
        );
        list[..list.len() - 4].to_vec()
    };
    // A binary in the root of a drive has nothing above it.
    assert!(beside(r"C:\scrcpy.exe", None).is_empty());
    assert_eq!(
        beside(
            r"C:\tools\bin\scrcpy.exe",
            Some(r"\\?\C:\tools\bin\scrcpy.exe")
        ),
        [
            r"C:\tools\share/scrcpy/scrcpy-server",
            r"\\?\C:\tools\share\scrcpy\scrcpy-server"
        ]
    );
}
