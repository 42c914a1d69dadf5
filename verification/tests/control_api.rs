use phone_control::control_api::{
    acquire_devices, api_token, authorize, authorized, capture_start, capture_stop, choose_devices,
    default_count, health, install_args, install_source, install_targets, list_devices,
    may_listen_on, not_implemented, release_devices, report, uuid_text, AcquireReq, InstallReq,
    TargetSource,
};
use phone_control::devices::{
    devices_args, enabled_servers, online_devices, parse_adb_devices, AdbServer,
};
use phone_control::leases::{DeviceRef, LeaseTable};

fn device(serial: &str) -> DeviceRef {
    DeviceRef {
        serial: serial.to_string(),
        server_host: "h".to_string(),
        server_port: 5037,
    }
}

fn fleet() -> Vec<DeviceRef> {
    vec![device("A"), device("B"), device("C")]
}

fn any(task: &str, count: usize) -> AcquireReq {
    AcquireReq {
        task_id: task.to_string(),
        count,
        serials: vec![],
        serial: None,
        ttl_secs: None,
    }
}

fn named(task: &str, serials: &[&str]) -> AcquireReq {
    AcquireReq {
        serials: serials.iter().map(|s| s.to_string()).collect(),
        ..any(task, 1)
    }
}

fn serials(list: &[DeviceRef]) -> Vec<&str> {
    list.iter().map(|d| d.serial.as_str()).collect()
}

fn acquire(table: &mut LeaseTable, req: &AcquireReq, now: u64) -> Vec<String> {
    match acquire_devices(table, req, &fleet(), now) {
        Ok(resp) => resp.devices.into_iter().map(|l| l.serial).collect(),
        Err(_) => vec![],
    }
}

#[test]
fn any_idle_device_is_one_device() {
    let mut table = LeaseTable::new();
    let req = any("build-1", default_count());
    let chosen = choose_devices(&table, &req, &fleet()).ok().unwrap();
    assert_eq!(serials(&chosen), ["A"]);
    let resp = acquire_devices(&mut table, &req, &fleet(), 1000).ok().unwrap();
    assert_eq!(resp.task_id, "build-1");
    let lease = &resp.devices[0];
    assert_eq!(
        (
            lease.serial.as_str(),
            lease.server_host.as_str(),
            lease.server_port,
            lease.task_id.as_str(),
            lease.expires_at
        ),
        ("A", "h", 5037, "build-1", 1900)
    );
    assert!(table.is_leased("A"));
    assert!(!table.is_leased("B"));
}

#[test]
fn count_limits_unnamed_requests_only() {
    let table = LeaseTable::new();
    let pick = |req: &AcquireReq| choose_devices(&table, req, &fleet()).ok().unwrap().len();
    assert_eq!(pick(&any("t", 2)), 2);
    assert_eq!(pick(&any("t", 9)), 3);
    // One device is handed out even when none is asked for.
    assert_eq!(pick(&any("t", 0)), 1);
    assert_eq!(pick(&named("t", &["C", "A", "Z"])), 2);
}

#[test]
fn named_devices_come_in_fleet_order() {
    let table = LeaseTable::new();
    let chosen = choose_devices(&table, &named("t", &["C", "A"]), &fleet()).ok().unwrap();
    assert_eq!(serials(&chosen), ["A", "C"]);
    let one = AcquireReq {
        serial: Some("B".to_string()),
        ..any("t", 5)
    };
    let chosen = choose_devices(&table, &one, &fleet()).ok().unwrap();
    assert_eq!(serials(&chosen), ["B"]);
}

#[test]
fn two_tasks_never_share_a_device() {
    let mut table = LeaseTable::new();
    assert_eq!(acquire(&mut table, &any("t1", 2), 0), ["A", "B"]);
    assert_eq!(acquire(&mut table, &any("t2", 2), 0), ["C"]);
    let refused = choose_devices(&table, &any("t3", 1), &fleet()).err().unwrap();
    assert_eq!(refused.status, 409);
    assert_eq!(refused.message, "no idle devices available for lease");
    let refused = acquire_devices(&mut table, &named("t3", &["A"]), &fleet(), 0).err().unwrap();
    assert_eq!(refused.status, 409);
    assert_eq!(table.len(), 3);
}

#[test]
fn release_gives_back_what_the_task_holds() {
    let mut table = LeaseTable::new();
    acquire(&mut table, &named("keep", &["B"]), 0);
    acquire(&mut table, &any("t", 2), 0);
    assert_eq!(table.len(), 3);
    assert_eq!(release_devices(&mut table, "t"), 2);
    assert_eq!(release_devices(&mut table, "t"), 0);
    assert_eq!(table.len(), 1);
    assert_eq!(table.holder("B"), Some("keep".to_string()));
    assert_eq!(table.holder("A"), None);
}

#[test]
fn lapsed_leases_are_swept() {
    let mut table = LeaseTable::new();
    let short = AcquireReq {
        ttl_secs: Some(60),
        ..any("short", 1)
    };
    acquire(&mut table, &short, 1000);
    acquire(&mut table, &any("long", 1), 1000);
    assert_eq!(table.sweep(1059), 0);
    assert_eq!(table.sweep(1060), 1);
    assert!(!table.is_leased("A"));
    assert!(table.is_leased("B"));
    assert_eq!(table.sweep(1900), 1);
    let endless = AcquireReq {
        ttl_secs: Some(u64::MAX),
        ..any("endless", 1)
    };
    let resp = acquire_devices(&mut table, &endless, &fleet(), 5).ok().unwrap();
    assert_eq!(resp.devices[0].expires_at, u64::MAX);
}

#[test]
fn a_second_lease_on_a_serial_replaces_the_first() {
    let mut table = LeaseTable::new();
    table.insert(&device("A"), "t1", 10);
    table.insert(&device("A"), "t2", 20);
    assert_eq!(table.len(), 1);
    assert_eq!(table.holder("A"), Some("t2".to_string()));
}

#[test]
fn listing_names_the_holder() {
    let mut table = LeaseTable::new();
    acquire(&mut table, &named("t", &["B"]), 0);
    let listed = list_devices(&fleet(), &table);
    let seen: Vec<(&str, Option<&str>)> = listed
        .iter()
        .map(|d| (d.serial.as_str(), d.leased_by.as_deref()))
        .collect();
    assert_eq!(seen, [("A", None), ("B", Some("t")), ("C", None)]);
    assert_eq!(listed[0].server_host, "h");
    assert_eq!(listed[0].server_port, 5037);
}

fn install(task: Option<&str>, names: &[&str]) -> InstallReq {
    InstallReq {
        apk_path: "/tmp/app.apk".to_string(),
        task_id: task.map(|t| t.to_string()),
        serials: names.iter().map(|s| s.to_string()).collect(),
    }
}

#[test]
fn install_targets_come_from_names_then_task_then_everywhere() {
    let mut table = LeaseTable::new();
    acquire(&mut table, &any("t", 2), 0);

    let req = install(Some("t"), &["C"]);
    assert_eq!(install_source(&req, true).ok(), Some(TargetSource::NamedOnline));
    let got = install_targets(&req, fleet(), &table).ok().unwrap();
    assert_eq!(serials(&got), ["C"]);

    let req = install(Some("t"), &[]);
    assert_eq!(install_source(&req, true).ok(), Some(TargetSource::Leased));
    let got = install_targets(&req, vec![], &table).ok().unwrap();
    let mut held = serials(&got);
    held.sort();
    assert_eq!(held, ["A", "B"]);
    assert_eq!(got[0].server_host, "h");

    let req = install(None, &[]);
    assert_eq!(install_source(&req, true).ok(), Some(TargetSource::AllOnline));
    let got = install_targets(&req, fleet(), &table).ok().unwrap();
    assert_eq!(serials(&got), ["A", "B", "C"]);
}

#[test]
fn install_errors() {
    let table = LeaseTable::new();
    let e = install_source(&install(None, &[]), false).err().unwrap();
    assert_eq!(e.status, 400);
    assert_eq!(e.message, "APK not found on this host: /tmp/app.apk");
    for req in [install(None, &["Z"]), install(Some("nobody"), &[])] {
        let e = install_targets(&req, fleet(), &table).err().unwrap();
        assert_eq!(e.status, 400);
        assert_eq!(e.message, "no target devices resolved");
    }
    assert!(install_targets(&install(None, &[]), vec![], &table).is_err());
}

#[test]
fn endpoints_without_an_implementation() {
    assert_eq!(not_implemented("x").status, 501);
    assert_eq!(
        not_implemented("x").message,
        "x — Phase 2, not implemented yet"
    );
    assert_eq!(
        capture_start().message,
        "capture/start (adb screenrecord + logcat to output-dir) — Phase 2, not implemented yet"
    );
    assert_eq!(
        capture_stop().message,
        "capture/stop (finalize mp4/log artifacts) — Phase 2, not implemented yet"
    );
    assert_eq!(
        report().message,
        "smoke/report (JUnit XML + JSON artifact bundle) — Phase 2, not implemented yet"
    );
    assert_eq!(health().status, "ok");
    assert_eq!(health().service, "phone-control control-api");
}

#[test]
fn only_the_health_check_goes_without_a_token() {
    let bearer = |s: &str| Some(s.to_string());
    assert!(authorized("/api/v1/health", &None, "T"));
    assert!(!authorized("/api/v1/devices", &None, "T"));
    assert!(authorized("/api/v1/devices", &bearer("Bearer T"), "T"));
    assert!(!authorized("/api/v1/devices", &bearer("Bearer U"), "T"));
    assert!(!authorized("/api/v1/devices", &bearer("T"), "T"));
    assert!(authorize("/api/v1/health", &None, "T").is_ok());
    assert!(authorize("/api/v1/devices", &bearer("Bearer T"), "T").is_ok());
    let refused = authorize("/api/v1/devices", &None, "T").err().unwrap();
    assert_eq!(refused.status, 401);
    assert_eq!(refused.message, "missing or invalid bearer token");
}

#[test]
fn the_environment_token_wins_over_the_stored_one() {
    let some = |s: &str| Some(s.to_string());
    assert_eq!(api_token(&some("env"), &some("file\n")), some("env"));
    assert_eq!(api_token(&None, &some("file\n")), some("file"));
    assert_eq!(api_token(&some(" "), &some("file")), some("file"));
    assert_eq!(api_token(&None, &some("\n")), None);
    assert_eq!(api_token(&None, &None), None);
}

#[test]
fn uuids_have_the_version_4_form() {
    assert_eq!(
        uuid_text(0, 0),
        "00000000-0000-4000-8000-000000000000"
    );
    assert_eq!(
        uuid_text(u64::MAX, u64::MAX),
        "ffffffff-ffff-4fff-bfff-ffffffffffff"
    );
    assert_eq!(
        uuid_text(0x0123_4567_89ab_cdef, 0x0123_4567_89ab_cdef),
        "01234567-89ab-4def-8123-456789abcdef"
    );
}

fn server(host: &str, enabled: bool) -> AdbServer {
    AdbServer {
        host: host.to_string(),
        port: 5037,
        enabled,
    }
}

#[test]
fn adb_devices_output() {
    let output = "List of devices attached\nemulator-5554\tdevice\n\
                  R5CT\tunauthorized\n\nlonely\n10.0.0.9:5555\toffline transport_id:3";
    let rows = parse_adb_devices(output);
    let rows: Vec<(&str, &str)> = rows.iter().map(|(a, b)| (a.as_str(), b.as_str())).collect();
    assert_eq!(
        rows,
        [
            ("emulator-5554", "device"),
            ("R5CT", "unauthorized"),
            ("10.0.0.9:5555", "offline")
        ]
    );
    assert!(parse_adb_devices("").is_empty());
    assert!(parse_adb_devices("List of devices attached").is_empty());
}

#[test]
fn online_devices_of_enabled_servers() {
    let servers = vec![server("a", true), server("b", false), server("c", true)];
    let asked = enabled_servers(&servers);
    assert_eq!(asked.len(), 2);
    assert_eq!(asked[1].host, "c");
    assert_eq!(devices_args(&asked[0]), ["-H", "a", "-P", "5037", "devices"]);
    let head = "List of devices attached\n";
    let outputs = vec![
        format!("{head}A\tdevice\nB\toffline\n"),
        format!("{head}C\tdevice\r\n"),
    ];
    let online = online_devices(&asked, &outputs);
    let seen: Vec<(&str, &str)> = online
        .iter()
        .map(|d| (d.serial.as_str(), d.server_host.as_str()))
        .collect();
    assert_eq!(seen, [("A", "a"), ("C", "c")]);
}

#[test]
fn packages_are_installed_over_old_versions() {
    assert_eq!(
        install_args(&device("S"), "/tmp/app.apk"),
        ["-H", "h", "-P", "5037", "-s", "S", "install", "-r", "/tmp/app.apk"]
    );
}

#[test]
fn only_the_loopback_address_is_listened_on() {
    assert!(may_listen_on("127.0.0.1"));
    assert!(!may_listen_on("0.0.0.0"));
    assert!(!may_listen_on("192.168.0.2"));
}

#[test]
fn a_served_request_takes_nothing_away() {
    let mut table = LeaseTable::new();
    acquire(&mut table, &named("t1", &["A"]), 0);
    acquire(&mut table, &named("t2", &["A", "B"]), 0);
    assert_eq!(table.holder("A"), Some("t1".to_string()));
    assert_eq!(table.holder("B"), Some("t2".to_string()));
}
