//! What the local HTTP control API answers.
//!
//! A CI agent leases devices, installs packages on them and gives them back.
//! The API does device scheduling, package install and artifact capture, and
//! nothing else; driving the app's UI belongs to other tools. That is why the
//! devices handed to a task are freed of any live stream first.
//!
//! Every endpoint but `/api/v1/health` asks for a bearer token.
use vstd::prelude::*;

use crate::leases::{
    granting, has_serial, held_by, is_listing, law_grant_touches_its_devices_only, not_held_by,
    terms_for, Device, DeviceRef, Lease, LeaseTable, Terms,
};
use crate::scrcpy_client::{device_args, device_argv};
use crate::text::{
    append_hex, concat2, contains_text, hex, push_text, same_text, trim, trimmed,
};

verus! {

/// HTTP status: the request makes no sense as it is.
pub const BAD_REQUEST: u16 = 400;

/// HTTP status: the bearer token is missing or wrong.
pub const UNAUTHORIZED: u16 = 401;

/// HTTP status: there is nothing to hand out now.
pub const CONFLICT: u16 = 409;

/// HTTP status: this endpoint does nothing yet.
pub const NOT_IMPLEMENTED: u16 = 501;

/// How long a lease lasts unless the request says otherwise, in seconds.
pub const DEFAULT_TTL_SECS: u64 = 900;

/// A refused request.
pub struct ApiError {
    /// The HTTP status.
    pub status: u16,
    pub message: String,
}

impl DeepView for ApiError {
    type V = (u16, Seq<char>);

    open spec fn deep_view(&self) -> (u16, Seq<char>) {
        (self.status, self.message@)
    }
}

// ---------------------------------------------------------------------------
// Listening and authorization
// ---------------------------------------------------------------------------

/// Whether the API may listen on `host`. It is for this machine alone.
pub fn may_listen_on(host: &str) -> (r: bool)
    ensures
        r == (host@ == "127.0.0.1"@),
{
    same_text(host, "127.0.0.1")
}

/// The one endpoint that asks for no token.
pub const HEALTH_PATH: &'static str = "/api/v1/health";

/// Whether a request for `path` may go ahead: it is the health check, or its
/// `Authorization` header presents `token` as a bearer token.
pub open spec fn is_authorized(
    path: Seq<char>,
    header: Option<Seq<char>>,
    token: Seq<char>,
) -> bool {
    path == HEALTH_PATH@ || header == Some("Bearer "@ + token)
}

/// Whether a request for `path` may go ahead.
pub fn authorized(path: &str, header: &Option<String>, token: &str) -> (r: bool)
    ensures
        r == is_authorized(path@, header.deep_view(), token@),
{
    if same_text(path, HEALTH_PATH) {
        return true;
    }
    match header {
        Some(h) => same_text(h.as_str(), concat2("Bearer ", token).as_str()),
        None => false,
    }
}

/// Lets an authorized request go ahead and refuses any other.
pub fn authorize(path: &str, header: &Option<String>, token: &str) -> (r: Result<(), ApiError>)
    ensures
        match r {
            Ok(_) => is_authorized(path@, header.deep_view(), token@),
            Err(e) => !is_authorized(path@, header.deep_view(), token@) && e.deep_view() == (
                UNAUTHORIZED,
                "missing or invalid bearer token"@,
            ),
        },
{
    if authorized(path, header, token) {
        Ok(())
    } else {
        Err(
            ApiError {
                status: UNAUTHORIZED,
                message: "missing or invalid bearer token".to_owned(),
            },
        )
    }
}

/// A token setting, blanks around it removed, unless that leaves nothing.
pub open spec fn setting(value: Option<Seq<char>>) -> Option<Seq<char>> {
    match value {
        Some(v) => if trimmed(v).len() == 0 {
            None
        } else {
            Some(trimmed(v))
        },
        None => None,
    }
}

fn read_setting(value: &Option<String>) -> (r: Option<String>)
    ensures
        r.deep_view() == setting(value.deep_view()),
{
    match value {
        Some(v) => {
            let t = trim(v.as_str());
            if t.as_str().is_empty() {
                None
            } else {
                Some(t)
            }
        },
        None => None,
    }
}

/// The token in use: the environment's (`PHONE_CONTROL_TOKEN`), else the stored
/// one. `None` means that a new one is to be made and stored.
pub fn api_token(environment: &Option<String>, stored: &Option<String>) -> (r: Option<String>)
    ensures
        r.deep_view() == (match setting(environment.deep_view()) {
            Some(t) => Some(t),
            None => setting(stored.deep_view()),
        }),
{
    match read_setting(environment) {
        Some(t) => Some(t),
        None => read_setting(stored),
    }
}

/// A random (version 4) UUID in its usual form, from two random words.
pub open spec fn uuid_of(high: u64, low: u64) -> Seq<char> {
    hex((high / 0x1_0000_0000) as nat, 8) + "-"@ + hex((high / 0x1_0000) as nat, 4) + "-4"@ + hex(
        high as nat,
        3,
    ) + "-"@ + hex((0x8 + (low / 0x1000_0000_0000_0000) % 4) as nat, 1) + hex(
        (low / 0x1_0000_0000_0000) as nat,
        3,
    ) + "-"@ + hex(low as nat, 12)
}

/// A random UUID in its usual form, from two random words.
pub fn uuid_text(high: u64, low: u64) -> (r: String)
    ensures
        r@ == uuid_of(high, low),
{
    let mut out = String::new();
    append_hex(&mut out, high / 0x1_0000_0000, 8);
    out.append("-");
    append_hex(&mut out, high / 0x1_0000, 4);
    out.append("-4");
    append_hex(&mut out, high, 3);
    out.append("-");
    append_hex(&mut out, 0x8 + (low / 0x1000_0000_0000_0000) % 4, 1);
    append_hex(&mut out, low / 0x1_0000_0000_0000, 3);
    out.append("-");
    append_hex(&mut out, low, 12);
    proof {
        assert(out@ =~= uuid_of(high, low));
    }
    out
}

// ---------------------------------------------------------------------------
// GET /health, GET /devices
// ---------------------------------------------------------------------------

/// The answer to a health check.
pub struct Health {
    pub status: String,
    pub service: String,
}

/// The answer to a health check.
pub fn health() -> (r: Health)
    ensures
        r.status@ == "ok"@,
        r.service@ == "phone-control control-api"@,
{
    Health { status: "ok".to_owned(), service: "phone-control control-api".to_owned() }
}

/// An online device, and the task that has leased it.
pub struct ListedDevice {
    pub serial: String,
    pub server_host: String,
    pub server_port: u16,
    pub leased_by: Option<String>,
}

impl DeepView for ListedDevice {
    type V = (Device, Option<Seq<char>>);

    open spec fn deep_view(&self) -> (Device, Option<Seq<char>>) {
        (
            Device { serial: self.serial@, host: self.server_host@, port: self.server_port },
            self.leased_by.deep_view(),
        )
    }
}

/// The task that has leased `serial`.
pub open spec fn holder_of(leases: Map<Seq<char>, Terms>, serial: Seq<char>) -> Option<Seq<char>> {
    if leases.dom().contains(serial) {
        Some(leases[serial].task)
    } else {
        None
    }
}

/// The online devices, each with the task that has leased it.
pub fn list_devices(online: &Vec<DeviceRef>, leases: &LeaseTable) -> (r: Vec<ListedDevice>)
    requires
        leases.well_formed(),
    ensures
        r.deep_view() == online.deep_view().map_values(
            |d: Device| (d, holder_of(leases@, d.serial)),
        ),
{
    let mut out: Vec<ListedDevice> = Vec::new();
    let ghost all = online.deep_view();
    let mut i: usize = 0;
    while i < online.len()
        invariant
            i <= online.len(),
            leases.well_formed(),
            all == online.deep_view(),
            out@.len() == i,
            forall|k: int|
                0 <= k < i ==> (#[trigger] out@[k]).deep_view() == (
                    all[k],
                    holder_of(leases@, all[k].serial),
                ),
        decreases online.len() - i,
    {
        let d = &online[i];
        let leased_by = leases.holder(d.serial.as_str());
        out.push(
            ListedDevice {
                serial: d.serial.clone(),
                server_host: d.server_host.clone(),
                server_port: d.server_port,
                leased_by,
            },
        );
        i += 1;
    }
    proof {
        assert(out.deep_view() =~= all.map_values(|d: Device| (d, holder_of(leases@, d.serial))));
    }
    out
}

// ---------------------------------------------------------------------------
// POST /devices/acquire
// ---------------------------------------------------------------------------

/// A request for devices.
pub struct AcquireReq {
    pub task_id: String,
    /// How many devices are wanted when none is named.
    pub count: usize,
    /// Named devices, all of them wanted.
    pub serials: Vec<String>,
    /// A single named device. Not looked at when `serials` names any.
    pub serial: Option<String>,
    /// How long the lease is to last, in seconds.
    pub ttl_secs: Option<u64>,
}

/// How many devices a request that does not say gets.
pub fn default_count() -> (r: usize)
    ensures
        r == 1,
{
    1
}

/// Whether the request is content with `d`.
pub open spec fn suits(req: &AcquireReq, d: Device) -> bool {
    if req.serials.deep_view().len() > 0 {
        req.serials.deep_view().contains(d.serial)
    } else {
        req.serial is Some ==> d.serial == req.serial->0@
    }
}

/// Whether `n` devices are all that the request wants. Where devices are named in
/// a list there is no limit; otherwise it is at least one.
pub open spec fn enough(req: &AcquireReq, n: nat) -> bool {
    &&& req.serials.deep_view().len() == 0
    &&& if req.serial is Some {
        n >= 1
    } else {
        n >= 1 && n >= req.count
    }
}

/// The devices that the request could get: idle and suitable, in order.
pub open spec fn eligible(
    leases: Map<Seq<char>, Terms>,
    req: &AcquireReq,
    available: Seq<Device>,
) -> Seq<Device> {
    available.filter(|d: Device| !leases.dom().contains(d.serial) && suits(req, d))
}

/// The most devices that the request gets.
pub open spec fn most(req: &AcquireReq, n: nat) -> nat {
    if req.serials.deep_view().len() > 0 {
        n
    } else if req.serial is Some || req.count == 0 {
        1
    } else {
        req.count as nat
    }
}

/// The devices that the request gets: the first ones that it could get, as many
/// as it wants.
pub open spec fn picked(
    leases: Map<Seq<char>, Terms>,
    req: &AcquireReq,
    available: Seq<Device>,
) -> Seq<Device> {
    let e = eligible(leases, req, available);
    if most(req, e.len()) < e.len() {
        e.take(most(req, e.len()) as int)
    } else {
        e
    }
}

proof fn lemma_eligible_prefix(
    leases: Map<Seq<char>, Terms>,
    req: &AcquireReq,
    available: Seq<Device>,
    n: int,
)
    requires
        0 <= n <= available.len(),
    ensures
        eligible(leases, req, available.take(n)).len() <= eligible(leases, req, available).len(),
        eligible(leases, req, available).take(
            eligible(leases, req, available.take(n)).len() as int,
        ) == eligible(leases, req, available.take(n)),
    decreases available.len(),
{
    reveal(Seq::filter);
    if n == available.len() {
        assert(available.take(n) =~= available);
        assert(eligible(leases, req, available).take(
            eligible(leases, req, available).len() as int,
        ) =~= eligible(leases, req, available));
    } else {
        let init = available.drop_last();
        lemma_eligible_prefix(leases, req, init, n);
        assert(init.take(n) =~= available.take(n));
        let short = eligible(leases, req, available.take(n));
        assert(eligible(leases, req, available).take(short.len() as int) =~= short);
    }
}

/// Chooses devices for a request among the available ones. They are not leased
/// yet.
pub fn choose_devices(leases: &LeaseTable, req: &AcquireReq, available: &Vec<DeviceRef>) -> (r:
    Result<Vec<DeviceRef>, ApiError>)
    requires
        leases.well_formed(),
    ensures
        match r {
            Ok(chosen) => chosen.deep_view() == picked(leases@, req, available.deep_view())
                && chosen.deep_view().len() > 0,
            Err(e) => picked(leases@, req, available.deep_view()).len() == 0 && e.deep_view() == (
                CONFLICT,
                "no idle devices available for lease"@,
            ),
        },
{
    let mut chosen: Vec<DeviceRef> = Vec::new();
    let ghost all = available.deep_view();
    let mut i: usize = 0;
    proof {
        reveal(Seq::filter);
        assert(all.take(0) =~= Seq::empty());
        assert(chosen.deep_view() =~= eligible(leases@, req, all.take(0)));
    }
    while i < available.len()
        invariant
            i <= available.len(),
            leases.well_formed(),
            all == available.deep_view(),
            chosen.deep_view() == eligible(leases@, req, all.take(i as int)),
            !enough(req, chosen.deep_view().len()),
        decreases available.len() - i,
    {
        let d = &available[i];
        let ghost before = chosen.deep_view();
        proof {
            reveal(Seq::filter);
            assert(all.take(i + 1).drop_last() =~= all.take(i as int));
            assert(all.take(i + 1).last() == d.deep_view());
        }
        i += 1;
        if leases.is_leased(d.serial.as_str()) {
            continue;
        }
        let wanted = if req.serials.len() > 0 {
            contains_text(&req.serials, d.serial.as_str())
        } else {
            match &req.serial {
                Some(s) => same_text(d.serial.as_str(), s.as_str()),
                None => true,
            }
        };
        if wanted {
            chosen.push(d.clone());
            proof {
                assert(chosen.deep_view() =~= before.push(d.deep_view()));
            }
            let full = req.serials.len() == 0 && (req.serial.is_some() || chosen.len()
                >= req.count);
            if full {
                proof {
                    lemma_eligible_prefix(leases@, req, all, i as int);
                    let e = eligible(leases@, req, all);
                    assert(chosen.deep_view().len() == most(req, e.len()));
                    assert(e.take(e.len() as int) =~= e);
                    assert(picked(leases@, req, all) =~= chosen.deep_view());
                }
                return Ok(chosen);
            }
        }
    }
    proof {
        assert(all.take(i as int) =~= all);
        assert(picked(leases@, req, all) =~= chosen.deep_view());
    }
    if chosen.len() == 0 {
        return Err(
            ApiError {
                status: CONFLICT,
                message: "no idle devices available for lease".to_owned(),
            },
        );
    }
    Ok(chosen)
}

/// When a lease of the request that begins at `now` lapses.
pub open spec fn expiry(req: &AcquireReq, now: u64) -> u64 {
    let ttl = match req.ttl_secs {
        Some(t) => t,
        None => DEFAULT_TTL_SECS,
    };
    if now + ttl > u64::MAX {
        u64::MAX
    } else {
        (now + ttl) as u64
    }
}

/// The answer to a request for devices.
pub struct AcquireResp {
    pub task_id: String,
    pub devices: Vec<Lease>,
}

/// Serves a request for devices: chooses among the available ones and leases the
/// chosen ones to the task of the request, from `now` on. A request that gets
/// nothing is refused and changes nothing.
///
/// Choosing and leasing are one step, so that no other request comes in between.
pub fn acquire_devices(
    leases: &mut LeaseTable,
    req: &AcquireReq,
    available: &Vec<DeviceRef>,
    now: u64,
) -> (r: Result<AcquireResp, ApiError>)
    requires
        old(leases).well_formed(),
    ensures
        final(leases).well_formed(),
        ({
            let devices = picked(old(leases)@, req, available.deep_view());
            match r {
                Ok(resp) => {
                    &&& devices.len() > 0
                    &&& final(leases)@ == granting(
                        old(leases)@,
                        devices,
                        req.task_id@,
                        expiry(req, now),
                    )
                    &&& resp.task_id@ == req.task_id@
                    &&& resp.devices.deep_view() == devices.map_values(
                        |d: Device| (d.serial, terms_for(d, req.task_id@, expiry(req, now))),
                    )
                },
                Err(e) => {
                    &&& devices.len() == 0
                    &&& final(leases)@ == old(leases)@
                    &&& e.deep_view() == (CONFLICT, "no idle devices available for lease"@)
                },
            }
        }),
{
    let chosen = match choose_devices(leases, req, available) {
        Ok(chosen) => chosen,
        Err(e) => return Err(e),
    };
    let ttl: u64 = match req.ttl_secs {
        Some(t) => t,
        None => DEFAULT_TTL_SECS,
    };
    let expires_at = now.saturating_add(ttl);
    let devices = leases.grant(&chosen, req.task_id.as_str(), expires_at);
    Ok(AcquireResp { task_id: req.task_id.clone(), devices })
}

// ---------------------------------------------------------------------------
// POST /devices/release
// ---------------------------------------------------------------------------

/// Ends the leases of a task and returns how many there were.
pub fn release_devices(leases: &mut LeaseTable, task_id: &str) -> (r: usize)
    requires
        old(leases).well_formed(),
    ensures
        final(leases).well_formed(),
        final(leases)@ == not_held_by(old(leases)@, task_id@),
        r == held_by(old(leases)@, task_id@).len(),
{
    leases.release(task_id)
}

// ---------------------------------------------------------------------------
// POST /install
// ---------------------------------------------------------------------------

/// A request to install a package.
pub struct InstallReq {
    pub apk_path: String,
    /// Install onto the devices leased to the named task...
    pub task_id: Option<String>,
    /// ...or onto these explicit serials, which take precedence.
    pub serials: Vec<String>,
}

/// Where the devices of an install request come from.
#[derive(Debug, Clone, Copy, PartialEq, Eq, Structural)]
pub enum TargetSource {
    /// The online devices whose serials the request names.
    NamedOnline,
    /// The devices leased to the request's task.
    Leased,
    /// All online devices.
    AllOnline,
}

/// Where the devices of an install request come from.
pub open spec fn source_of(req: &InstallReq) -> TargetSource {
    if req.serials.deep_view().len() > 0 {
        TargetSource::NamedOnline
    } else if req.task_id is Some {
        TargetSource::Leased
    } else {
        TargetSource::AllOnline
    }
}

/// Begins an install: checks that the package is there, and says where its
/// target devices come from, which decides whether they have to be looked for.
pub fn install_source(req: &InstallReq, apk_is_file: bool) -> (r: Result<TargetSource, ApiError>)
    ensures
        match r {
            Ok(source) => apk_is_file && source == source_of(req),
            Err(e) => !apk_is_file && e.deep_view() == (
                BAD_REQUEST,
                "APK not found on this host: "@ + req.apk_path@,
            ),
        },
{
    if !apk_is_file {
        return Err(
            ApiError {
                status: BAD_REQUEST,
                message: concat2("APK not found on this host: ", req.apk_path.as_str()),
            },
        );
    }
    Ok(
        if req.serials.len() > 0 {
            TargetSource::NamedOnline
        } else if req.task_id.is_some() {
            TargetSource::Leased
        } else {
            TargetSource::AllOnline
        },
    )
}

/// The devices among `online` that the request names.
pub open spec fn named_online(req: &InstallReq, online: Seq<Device>) -> Seq<Device> {
    online.filter(|d: Device| req.serials.deep_view().contains(d.serial))
}

/// Whether `targets` are the devices that an install request is for.
pub open spec fn are_targets(
    leases: Map<Seq<char>, Terms>,
    req: &InstallReq,
    online: Seq<Device>,
    targets: Seq<Device>,
) -> bool {
    match source_of(req) {
        TargetSource::NamedOnline => targets == named_online(req, online),
        TargetSource::Leased => is_listing(leases, req.task_id->0@, targets),
        TargetSource::AllOnline => targets == online,
    }
}

fn pick_named(req: &InstallReq, online: &Vec<DeviceRef>) -> (r: Vec<DeviceRef>)
    ensures
        r.deep_view() == named_online(req, online.deep_view()),
{
    let mut out: Vec<DeviceRef> = Vec::new();
    let ghost all = online.deep_view();
    let mut i: usize = 0;
    proof {
        reveal(Seq::filter);
        assert(all.take(0) =~= Seq::empty());
        assert(out.deep_view() =~= named_online(req, all.take(0)));
    }
    while i < online.len()
        invariant
            i <= online.len(),
            all == online.deep_view(),
            out.deep_view() == named_online(req, all.take(i as int)),
        decreases online.len() - i,
    {
        let d = &online[i];
        let ghost before = out.deep_view();
        proof {
            reveal(Seq::filter);
            assert(all.take(i + 1).drop_last() =~= all.take(i as int));
            assert(all.take(i + 1).last() == d.deep_view());
        }
        if contains_text(&req.serials, d.serial.as_str()) {
            out.push(d.clone());
            proof {
                assert(out.deep_view() =~= before.push(d.deep_view()));
            }
        }
        i += 1;
    }
    proof {
        assert(all.take(i as int) =~= all);
    }
    out
}

/// The devices that an install request is for. `online` holds the online devices
/// where the request's source needs them.
pub fn install_targets(req: &InstallReq, online: Vec<DeviceRef>, leases: &LeaseTable) -> (r: Result<
    Vec<DeviceRef>,
    ApiError,
>)
    requires
        leases.well_formed(),
    ensures
        match r {
            Ok(targets) => targets.deep_view().len() > 0 && are_targets(
                leases@,
                req,
                online.deep_view(),
                targets.deep_view(),
            ),
            Err(e) => are_targets(leases@, req, online.deep_view(), Seq::empty()) && e.deep_view()
                == (BAD_REQUEST, "no target devices resolved"@),
        },
{
    let targets: Vec<DeviceRef> = if req.serials.len() > 0 {
        pick_named(req, &online)
    } else {
        match &req.task_id {
            Some(task_id) => leases.devices_of(task_id.as_str()),
            None => online,
        }
    };
    if targets.len() == 0 {
        proof {
            assert(targets.deep_view() =~= Seq::empty());
        }
        return Err(
            ApiError { status: BAD_REQUEST, message: "no target devices resolved".to_owned() },
        );
    }
    Ok(targets)
}

/// The `adb` arguments that install the package at `apk_path` on `target`, over an
/// installed version of it.
pub fn install_args(target: &DeviceRef, apk_path: &str) -> (r: Vec<String>)
    ensures
        r.deep_view() == device_argv(target.server_host@, target.server_port, target.serial@)
            + seq!["install"@, "-r"@, apk_path@],
{
    let mut args = device_args(
        target.server_host.as_str(),
        target.server_port,
        target.serial.as_str(),
    );
    push_text(&mut args, "install");
    push_text(&mut args, "-r");
    push_text(&mut args, apk_path);
    proof {
        assert(args.deep_view() =~= device_argv(
            target.server_host@,
            target.server_port,
            target.serial@,
        ) + seq!["install"@, "-r"@, apk_path@]);
    }
    args
}

// ---------------------------------------------------------------------------
// Endpoints that do nothing yet
// ---------------------------------------------------------------------------

/// The refusal of an endpoint that does nothing yet.
pub fn not_implemented(what: &str) -> (r: ApiError)
    ensures
        r.deep_view() == (NOT_IMPLEMENTED, what@ + " \u{2014} Phase 2, not implemented yet"@),
{
    ApiError {
        status: NOT_IMPLEMENTED,
        message: concat2(what, " \u{2014} Phase 2, not implemented yet"),
    }
}

/// Answers `POST /capture/start`.
pub fn capture_start() -> (r: ApiError)
    ensures
        r.deep_view() == (
            NOT_IMPLEMENTED,
            "capture/start (adb screenrecord + logcat to output-dir)"@
                + " \u{2014} Phase 2, not implemented yet"@,
        ),
{
    not_implemented("capture/start (adb screenrecord + logcat to output-dir)")
}

/// Answers `POST /capture/stop`.
pub fn capture_stop() -> (r: ApiError)
    ensures
        r.deep_view() == (
            NOT_IMPLEMENTED,
            "capture/stop (finalize mp4/log artifacts)"@
                + " \u{2014} Phase 2, not implemented yet"@,
        ),
{
    not_implemented("capture/stop (finalize mp4/log artifacts)")
}

/// Answers `GET /smoke/report`.
pub fn report() -> (r: ApiError)
    ensures
        r.deep_view() == (
            NOT_IMPLEMENTED,
            "smoke/report (JUnit XML + JSON artifact bundle)"@
                + " \u{2014} Phase 2, not implemented yet"@,
        ),
{
    not_implemented("smoke/report (JUnit XML + JSON artifact bundle)")
}

// ---------------------------------------------------------------------------
// Laws
// ---------------------------------------------------------------------------

/// Every device that a request gets was available, idle and suitable.
pub proof fn law_picks_are_idle(
    leases: Map<Seq<char>, Terms>,
    req: &AcquireReq,
    available: Seq<Device>,
    k: int,
)
    requires
        0 <= k < picked(leases, req, available).len(),
    ensures
        available.contains(picked(leases, req, available)[k]),
        !leases.dom().contains(picked(leases, req, available)[k].serial),
        suits(req, picked(leases, req, available)[k]),
{
    let e = eligible(leases, req, available);
    assert(picked(leases, req, available)[k] == e[k]);
    lemma_eligible_members(leases, req, available);
}

proof fn lemma_eligible_members(
    leases: Map<Seq<char>, Terms>,
    req: &AcquireReq,
    available: Seq<Device>,
)
    ensures
        forall|k: int|
            0 <= k < eligible(leases, req, available).len() ==> available.contains(
                #[trigger] eligible(leases, req, available)[k],
            ) && !leases.dom().contains(eligible(leases, req, available)[k].serial) && suits(
                req,
                eligible(leases, req, available)[k],
            ),
        forall|d: Device|
            available.contains(d) && !leases.dom().contains(d.serial) && suits(req, d)
                ==> #[trigger] eligible(leases, req, available).contains(d),
    decreases available.len(),
{
    reveal(Seq::filter);
    if available.len() > 0 {
        let init = available.drop_last();
        let last = available.last();
        lemma_eligible_members(leases, req, init);
        let e = eligible(leases, req, available);
        let f = eligible(leases, req, init);
        assert forall|k: int| 0 <= k < e.len() implies available.contains(#[trigger] e[k])
            && !leases.dom().contains(e[k].serial) && suits(req, e[k]) by {
            if k < f.len() {
                assert(e[k] == f[k]);
                let i = choose|i: int| 0 <= i < init.len() && init[i] == f[k];
                assert(available[i] == f[k]);
            } else {
                assert(available[available.len() - 1] == e[k]);
            }
        }
        assert forall|d: Device|
            available.contains(d) && !leases.dom().contains(d.serial) && suits(
                req,
                d,
            ) implies #[trigger] e.contains(d) by {
            if d == last {
                assert(e[e.len() - 1] == d);
            } else {
                let i = choose|i: int| 0 <= i < available.len() && available[i] == d;
                assert(init[i] == d);
                assert(f.contains(d));
                let k = choose|k: int| 0 <= k < f.len() && f[k] == d;
                assert(e[k] == d);
            }
        }
    }
}

/// A request is refused exactly when no available device is idle and suitable.
pub proof fn law_refused_iff_nothing_is_idle(
    leases: Map<Seq<char>, Terms>,
    req: &AcquireReq,
    available: Seq<Device>,
)
    ensures
        picked(leases, req, available).len() == 0 <==> forall|d: Device| #[trigger]
            available.contains(d) ==> leases.dom().contains(d.serial) || !suits(req, d),
{
    lemma_eligible_members(leases, req, available);
    let e = eligible(leases, req, available);
    if picked(leases, req, available).len() > 0 {
        assert(available.contains(e[0]));
    } else {
        assert(e.len() == 0);
        assert forall|d: Device| #[trigger] available.contains(d) implies leases.dom().contains(
            d.serial,
        ) || !suits(req, d) by {
            if !leases.dom().contains(d.serial) && suits(req, d) {
                assert(e.contains(d));
            }
        }
    }
}

/// A request that names no list of devices gets no more than it asks for; one
/// that does not say gets one.
pub proof fn law_no_more_than_asked_for(
    leases: Map<Seq<char>, Terms>,
    req: &AcquireReq,
    available: Seq<Device>,
)
    requires
        req.serials.deep_view().len() == 0,
    ensures
        req.serial is Some ==> picked(leases, req, available).len() <= 1,
        picked(leases, req, available).len() <= 1 || picked(leases, req, available).len()
            <= req.count,
{
}

/// A request never takes a leased device away: whoever held a lease before it was
/// served holds it on the same terms afterwards.
pub proof fn law_served_requests_take_nothing_away(
    leases: Map<Seq<char>, Terms>,
    req: &AcquireReq,
    available: Seq<Device>,
    expires_at: u64,
    serial: Seq<char>,
)
    requires
        leases.dom().contains(serial),
    ensures
        ({
            let after = granting(
                leases,
                picked(leases, req, available),
                req.task_id@,
                expires_at,
            );
            after.dom().contains(serial) && after[serial] == leases[serial]
        }),
{
    let devices = picked(leases, req, available);
    if has_serial(devices, serial) {
        let i = choose|i: int| 0 <= i < devices.len() && (#[trigger] devices[i]).serial == serial;
        law_picks_are_idle(leases, req, available, i);
    }
    law_grant_touches_its_devices_only(leases, devices, req.task_id@, expires_at, serial);
}

/// No device is leased twice: what a second request gets after a first one was
/// served, with no release in between, shares no serial with what the first got.
pub proof fn law_two_tasks_never_share_a_device(
    leases: Map<Seq<char>, Terms>,
    first: &AcquireReq,
    first_available: Seq<Device>,
    expires_at: u64,
    second: &AcquireReq,
    second_available: Seq<Device>,
    i: int,
    j: int,
)
    requires
        0 <= i < picked(leases, first, first_available).len(),
        ({
            let granted = granting(
                leases,
                picked(leases, first, first_available),
                first.task_id@,
                expires_at,
            );
            0 <= j < picked(granted, second, second_available).len()
        }),
    ensures
        ({
            let granted = granting(
                leases,
                picked(leases, first, first_available),
                first.task_id@,
                expires_at,
            );
            picked(leases, first, first_available)[i].serial != picked(
                granted,
                second,
                second_available,
            )[j].serial
        }),
{
    let devices = picked(leases, first, first_available);
    let granted = granting(leases, devices, first.task_id@, expires_at);
    let serial = devices[i].serial;
    assert(has_serial(devices, serial));
    law_grant_touches_its_devices_only(leases, devices, first.task_id@, expires_at, serial);
    law_picks_are_idle(granted, second, second_available, j);
}

proof fn lemma_filter_same(
    s: Seq<Device>,
    p: spec_fn(Device) -> bool,
    q: spec_fn(Device) -> bool,
)
    requires
        forall|k: int| 0 <= k < s.len() ==> p(#[trigger] s[k]) == q(s[k]),
    ensures
        s.filter(p) == s.filter(q),
    decreases s.len(),
{
    reveal(Seq::filter);
    if s.len() > 0 {
        let init = s.drop_last();
        assert forall|k: int| 0 <= k < init.len() implies p(#[trigger] init[k]) == q(init[k]) by {
            assert(init[k] == s[k]);
        }
        lemma_filter_same(init, p, q);
        assert(p(s[s.len() - 1]) == q(s[s.len() - 1]));
    }
}

proof fn lemma_filter_members(s: Seq<Device>, p: spec_fn(Device) -> bool, d: Device)
    ensures
        s.filter(p).contains(d) <==> s.contains(d) && p(d),
    decreases s.len(),
{
    reveal(Seq::filter);
    if s.len() > 0 {
        let init = s.drop_last();
        let rest = init.filter(p);
        let all = s.filter(p);
        lemma_filter_members(init, p, d);
        if rest.contains(d) {
            let k = choose|k: int| 0 <= k < rest.len() && rest[k] == d;
            assert(all[k] == d);
        }
        if all.contains(d) {
            let k = choose|k: int| 0 <= k < all.len() && all[k] == d;
            if k < rest.len() {
                assert(rest[k] == d);
            } else {
                assert(s[s.len() - 1] == d);
            }
        }
        if init.contains(d) {
            let k = choose|k: int| 0 <= k < init.len() && init[k] == d;
            assert(s[k] == d);
        }
        if s.contains(d) && p(d) {
            let k = choose|k: int| 0 <= k < s.len() && s[k] == d;
            if k < init.len() {
                assert(init[k] == d);
            } else {
                assert(all[all.len() - 1] == d);
            }
        }
    }
}

/// A request that names no device gets as many as it asks for, as far as that many
/// are idle: the first ones available. One that asks for none gets one.
pub proof fn law_unnamed_requests_get_what_they_ask_for(
    leases: Map<Seq<char>, Terms>,
    req: &AcquireReq,
    available: Seq<Device>,
)
    requires
        req.serials@.len() == 0,
        req.serial is None,
    ensures
        ({
            let idle = available.filter(|d: Device| !leases.dom().contains(d.serial));
            let wanted: int = if req.count == 0 {
                1
            } else {
                req.count as int
            };
            &&& idle.len() <= wanted ==> picked(leases, req, available) == idle
            &&& idle.len() > wanted ==> picked(leases, req, available) == idle.take(wanted)
        }),
{
    lemma_filter_same(
        available,
        |d: Device| !leases.dom().contains(d.serial) && suits(req, d),
        |d: Device| !leases.dom().contains(d.serial),
    );
    let idle = available.filter(|d: Device| !leases.dom().contains(d.serial));
    assert(eligible(leases, req, available) == idle);
}

/// A request that names devices in a list gets every available idle one of them, no
/// matter how many it asks for, in the order in which they are available.
pub proof fn law_named_requests_get_all_that_are_idle(
    leases: Map<Seq<char>, Terms>,
    req: &AcquireReq,
    available: Seq<Device>,
    d: Device,
)
    requires
        req.serials@.len() > 0,
    ensures
        picked(leases, req, available).contains(d) <==> available.contains(d)
            && !leases.dom().contains(d.serial) && exists|k: int|
            0 <= k < req.serials@.len() && (#[trigger] req.serials@[k])@ == d.serial,
        picked(leases, req, available) == available.filter(
            |d: Device|
                !leases.dom().contains(d.serial) && req.serials.deep_view().contains(d.serial),
        ),
{
    lemma_filter_same(
        available,
        |d: Device| !leases.dom().contains(d.serial) && suits(req, d),
        |d: Device| !leases.dom().contains(d.serial) && req.serials.deep_view().contains(d.serial),
    );
    lemma_filter_members(
        available,
        |d: Device| !leases.dom().contains(d.serial) && req.serials.deep_view().contains(d.serial),
        d,
    );
    let named = req.serials.deep_view();
    if named.contains(d.serial) {
        let k = choose|k: int| 0 <= k < named.len() && named[k] == d.serial;
        assert(req.serials@[k]@ == d.serial);
    }
    if exists|k: int| 0 <= k < req.serials@.len() && (#[trigger] req.serials@[k])@ == d.serial {
        let k = choose|k: int|
            0 <= k < req.serials@.len() && (#[trigger] req.serials@[k])@ == d.serial;
        assert(named[k] == d.serial);
    }
}

/// A request for one named device gets the first available idle one of that serial,
/// and nothing else, no matter how many it asks for.
pub proof fn law_one_named_device(
    leases: Map<Seq<char>, Terms>,
    req: &AcquireReq,
    available: Seq<Device>,
)
    requires
        req.serials@.len() == 0,
        req.serial is Some,
    ensures
        ({
            let fitting = available.filter(
                |d: Device| !leases.dom().contains(d.serial) && d.serial == req.serial->0@,
            );
            &&& fitting.len() == 0 ==> picked(leases, req, available).len() == 0
            &&& fitting.len() > 0 ==> picked(leases, req, available) =~= seq![fitting[0]]
        }),
{
    lemma_filter_same(
        available,
        |d: Device| !leases.dom().contains(d.serial) && suits(req, d),
        |d: Device| !leases.dom().contains(d.serial) && d.serial == req.serial->0@,
    );
    let fitting = available.filter(
        |d: Device| !leases.dom().contains(d.serial) && d.serial == req.serial->0@,
    );
    assert(eligible(leases, req, available) == fitting);
}

/// What is chosen is what the request gets, and where it gets nothing it is refused.
pub proof fn law_choosing(
    leases: &LeaseTable,
    req: &AcquireReq,
    available: &Vec<DeviceRef>,
    r: Result<Vec<DeviceRef>, ApiError>,
)
    requires
        call_ensures(choose_devices, (leases, req, available), r),
    ensures
        r is Ok <==> picked(leases@, req, available.deep_view()).len() > 0,
        r is Ok ==> r->Ok_0.deep_view() == picked(leases@, req, available.deep_view()),
        r is Err ==> r->Err_0.status == 409 && r->Err_0.message@
            == "no idle devices available for lease"@,
{
}

/// A lease lasts as long as the request asks for, or a quarter of an hour, and no
/// longer than time can be told.
pub proof fn law_expiry(req: &AcquireReq, now: u64)
    ensures
        req.ttl_secs is Some && now + req.ttl_secs->0 <= u64::MAX ==> expiry(req, now) == now
            + req.ttl_secs->0,
        req.ttl_secs is None && now + 900 <= u64::MAX ==> expiry(req, now) == now + 900,
        req.ttl_secs is Some && now + req.ttl_secs->0 > u64::MAX ==> expiry(req, now) == u64::MAX,
        req.ttl_secs is None && now + 900 > u64::MAX ==> expiry(req, now) == u64::MAX,
{
}

/// An install request that names serials is for exactly the online devices with any
/// one of these serials, in the order in which they are online.
pub proof fn law_install_on_named_devices(
    req: &InstallReq,
    online: Vec<DeviceRef>,
    leases: &LeaseTable,
    r: Result<Vec<DeviceRef>, ApiError>,
    d: Device,
)
    requires
        call_ensures(install_targets, (req, online, leases), r),
        req.serials@.len() > 0,
    ensures
        r matches Ok(targets) ==> (targets.deep_view().contains(d) <==> online.deep_view().contains(
            d,
        ) && exists|k: int|
            0 <= k < req.serials@.len() && (#[trigger] req.serials@[k])@ == d.serial),
        r matches Ok(targets) ==> targets.deep_view() == online.deep_view().filter(
            |d: Device| req.serials.deep_view().contains(d.serial),
        ),
        r is Err ==> !(online.deep_view().contains(d) && exists|k: int|
            0 <= k < req.serials@.len() && (#[trigger] req.serials@[k])@ == d.serial),
        r matches Ok(targets) ==> targets@.len() > 0,
{
    let all = online.deep_view();
    let named = req.serials.deep_view();
    lemma_filter_members(all, |d: Device| named.contains(d.serial), d);
    lemma_filter_same(
        all,
        |d: Device| req.serials.deep_view().contains(d.serial),
        |d: Device| named.contains(d.serial),
    );
    if named.contains(d.serial) {
        let k = choose|k: int| 0 <= k < named.len() && named[k] == d.serial;
        assert(req.serials@[k]@ == d.serial);
    }
    if exists|k: int| 0 <= k < req.serials@.len() && (#[trigger] req.serials@[k])@ == d.serial {
        let k = choose|k: int|
            0 <= k < req.serials@.len() && (#[trigger] req.serials@[k])@ == d.serial;
        assert(named[k] == d.serial);
    }
    if r is Ok {
        assert(r->Ok_0.deep_view().len() == r->Ok_0@.len());
    } else {
        assert(named_online(req, all) == Seq::<Device>::empty());
        if all.contains(d) && named.contains(d.serial) {
            assert(Seq::<Device>::empty().contains(d));
        }
    }
}

/// An install request that names a task alone is for exactly the devices leased to
/// it, each once, on the servers that they are leased on.
pub proof fn law_install_on_leased_devices(
    req: &InstallReq,
    online: Vec<DeviceRef>,
    leases: &LeaseTable,
    r: Result<Vec<DeviceRef>, ApiError>,
    d: Device,
)
    requires
        call_ensures(install_targets, (req, online, leases), r),
        req.serials@.len() == 0,
        req.task_id is Some,
    ensures
        r matches Ok(targets) ==> (targets.deep_view().contains(d) <==> leases@.dom().contains(
            d.serial,
        ) && leases@[d.serial].task == req.task_id->0@ && leases@[d.serial].host == d.host
            && leases@[d.serial].port == d.port),
        r matches Ok(targets) ==> forall|i: int, j: int|
            0 <= i < j < targets.deep_view().len() ==> (#[trigger] targets.deep_view()[i]).serial
                != (#[trigger] targets.deep_view()[j]).serial,
        r is Err ==> !(leases@.dom().contains(d.serial) && leases@[d.serial].task
            == req.task_id->0@ && leases@[d.serial].host == d.host && leases@[d.serial].port
            == d.port),
{
    crate::leases::law_listing_is_exact(
        leases@,
        req.task_id->0@,
        if r is Ok {
            r->Ok_0.deep_view()
        } else {
            Seq::empty()
        },
        d,
    );
    if r is Err {
        assert(!Seq::<Device>::empty().contains(d));
    }
}

/// An install request that names neither is for all online devices.
pub proof fn law_install_everywhere(
    req: &InstallReq,
    online: Vec<DeviceRef>,
    leases: &LeaseTable,
    r: Result<Vec<DeviceRef>, ApiError>,
)
    requires
        call_ensures(install_targets, (req, online, leases), r),
        req.serials@.len() == 0,
        req.task_id is None,
    ensures
        r is Ok <==> online@.len() > 0,
        r matches Ok(targets) ==> targets.deep_view() == online.deep_view(),
{
    assert(online.deep_view().len() == online@.len());
}

/// An install that finds no device is refused, and says so.
pub proof fn law_install_refusal(
    req: &InstallReq,
    online: Vec<DeviceRef>,
    leases: &LeaseTable,
    r: Result<Vec<DeviceRef>, ApiError>,
)
    requires
        call_ensures(install_targets, (req, online, leases), r),
        r is Err,
    ensures
        r->Err_0.status == 400,
        r->Err_0.message@ == "no target devices resolved"@,
{
}

/// An install begins only with a package that is there; names come before the task,
/// and the task before everything online.
pub proof fn law_install_source(
    req: &InstallReq,
    apk_is_file: bool,
    r: Result<TargetSource, ApiError>,
)
    requires
        call_ensures(install_source, (req, apk_is_file), r),
    ensures
        r is Ok <==> apk_is_file,
        r is Err ==> r->Err_0.status == 400 && r->Err_0.message@ == "APK not found on this host: "@
            + req.apk_path@,
        r is Ok && req.serials@.len() > 0 ==> r->Ok_0 == TargetSource::NamedOnline,
        r is Ok && req.serials@.len() == 0 && req.task_id is Some ==> r->Ok_0
            == TargetSource::Leased,
        r is Ok && req.serials@.len() == 0 && req.task_id is None ==> r->Ok_0
            == TargetSource::AllOnline,
{
}

/// A package is installed on its target, over what is there.
pub proof fn law_install_command(target: &DeviceRef, apk_path: &str, r: Vec<String>)
    requires
        call_ensures(install_args, (target, apk_path), r),
    ensures
        r.deep_view() =~= seq![
            "-H"@,
            target.server_host@,
            "-P"@,
            crate::text::decimal(target.server_port as nat),
            "-s"@,
            target.serial@,
            "install"@,
            "-r"@,
            apk_path@,
        ],
{
}

/// The health check is open to all. Any other request is let through by the right
/// bearer token alone: without a header, with another token, or with another scheme
/// it is refused with 401.
pub proof fn law_only_the_token_opens_the_api(
    path: &str,
    header: &Option<String>,
    token: &str,
    r: Result<(), ApiError>,
)
    requires
        call_ensures(authorize, (path, header, token), r),
    ensures
        path@ == "/api/v1/health"@ ==> r is Ok,
        path@ != "/api/v1/health"@ && header is None ==> r is Err,
        path@ != "/api/v1/health"@ && header is Some ==> (r is Ok <==> header->0@ == "Bearer "@
            + token@),
        r is Err ==> r->Err_0.status == 401 && r->Err_0.message@
            == "missing or invalid bearer token"@,
{
}

/// The decision behind [`authorize`], and that one header fits one token only.
pub proof fn law_authorized(path: &str, header: &Option<String>, token: &str, other: &str, r: bool)
    requires
        call_ensures(authorized, (path, header, token), r),
    ensures
        r <==> path@ == "/api/v1/health"@ || (header is Some && header->0@ == "Bearer "@ + token@),
        path@ != "/api/v1/health"@ && r && is_authorized(path@, header.deep_view(), other@)
            ==> token@ == other@,
{
    if path@ != "/api/v1/health"@ && r && is_authorized(path@, header.deep_view(), other@) {
        let n = "Bearer "@.len() as int;
        assert(("Bearer "@ + token@).skip(n) =~= token@);
        assert(("Bearer "@ + other@).skip(n) =~= other@);
    }
}

/// The API listens on the loopback address alone.
pub proof fn law_listening(host: &str, r: bool)
    requires
        call_ensures(may_listen_on, (host,), r),
    ensures
        r <==> host@ == "127.0.0.1"@,
{
}

/// The token of the environment is used if it is more than blanks, else the stored one
/// if that is; blanks around either do not count.
pub proof fn law_token_in_use(
    environment: &Option<String>,
    stored: &Option<String>,
    r: Option<String>,
)
    requires
        call_ensures(api_token, (environment, stored), r),
    ensures
        environment is Some && trimmed(environment->0@).len() > 0 ==> r is Some && r->0@ == trimmed(
            environment->0@,
        ),
        (environment is None || trimmed(environment->0@).len() == 0) && stored is Some && trimmed(
            stored->0@,
        ).len() > 0 ==> r is Some && r->0@ == trimmed(stored->0@),
        (environment is None || trimmed(environment->0@).len() == 0) && (stored is None || trimmed(
            stored->0@,
        ).len() == 0) ==> r is None,
{
}

/// A random id has the form of a version 4 UUID: 36 characters, dashes after the
/// eighth, twelfth, sixteenth and twentieth digit, the version 4 and a variant digit
/// of `8`, `9`, `a` or `b`. Every other digit comes from the random words.
pub proof fn law_uuid_form(high: u64, low: u64, r: String)
    requires
        call_ensures(uuid_text, (high, low), r),
    ensures
        r@.len() == 36,
        r@[8] == '-' && r@[13] == '-' && r@[18] == '-' && r@[23] == '-',
        r@[14] == '4',
        r@[19] == '8' || r@[19] == '9' || r@[19] == 'a' || r@[19] == 'b',
        low / 0x1000_0000_0000_0000 % 4 == 0 ==> r@[19] == '8',
        low / 0x1000_0000_0000_0000 % 4 == 1 ==> r@[19] == '9',
        low / 0x1000_0000_0000_0000 % 4 == 2 ==> r@[19] == 'a',
        low / 0x1000_0000_0000_0000 % 4 == 3 ==> r@[19] == 'b',
        r@.subrange(0, 8) =~= hex((high / 0x1_0000_0000) as nat, 8),
        r@.subrange(9, 13) =~= hex((high / 0x1_0000) as nat, 4),
        r@.subrange(15, 18) =~= hex(high as nat, 3),
        r@.subrange(20, 23) =~= hex((low / 0x1_0000_0000_0000) as nat, 3),
        r@.subrange(24, 36) =~= hex(low as nat, 12),
{
    reveal_strlit("-");
    reveal_strlit("-4");
    crate::text::law_hex_is_positional((high / 0x1_0000_0000) as nat, 8, 0);
    crate::text::law_hex_is_positional((high / 0x1_0000) as nat, 4, 0);
    crate::text::law_hex_is_positional(high as nat, 3, 0);
    let variant = (0x8 + (low / 0x1000_0000_0000_0000) % 4) as nat;
    crate::text::law_hex_is_positional(variant, 1, 0);
    assert(crate::text::sixteen_to(0) == 1);
    assert(variant / 1 == variant);
    crate::text::law_hex_is_positional((low / 0x1_0000_0000_0000) as nat, 3, 0);
    crate::text::law_hex_is_positional(low as nat, 12, 0);
}

/// Listing changes nothing of the devices: each comes once, in order, with the task
/// that has leased its serial, if any.
pub proof fn law_listing_devices(
    online: &Vec<DeviceRef>,
    leases: &LeaseTable,
    r: Vec<ListedDevice>,
    k: int,
)
    requires
        call_ensures(list_devices, (online, leases), r),
    ensures
        r@.len() == online@.len(),
        0 <= k < r@.len() ==> r@[k].serial@ == online@[k].serial@ && r@[k].server_host@
            == online@[k].server_host@ && r@[k].server_port == online@[k].server_port,
        0 <= k < r@.len() && leases@.dom().contains(online@[k].serial@) ==> r@[k].leased_by is Some
            && r@[k].leased_by->0@ == leases@[online@[k].serial@].task,
        0 <= k < r@.len() && !leases@.dom().contains(online@[k].serial@) ==> r@[k].leased_by is None,
{
    assert(r.deep_view().len() == r@.len());
    assert(online.deep_view().len() == online@.len());
    if 0 <= k < r@.len() {
        assert(r.deep_view()[k] == r@[k].deep_view());
        assert(online.deep_view()[k] == online@[k].deep_view());
    }
}

/// The fixed answers.
pub proof fn law_fixed_answers(
    what: &str,
    h: Health,
    n: usize,
    refused: ApiError,
    start: ApiError,
    stop: ApiError,
    bundle: ApiError,
)
    requires
        call_ensures(health, (), h),
        call_ensures(default_count, (), n),
        call_ensures(not_implemented, (what,), refused),
        call_ensures(capture_start, (), start),
        call_ensures(capture_stop, (), stop),
        call_ensures(report, (), bundle),
    ensures
        h.status@ == "ok"@,
        h.service@ == "phone-control control-api"@,
        n == 1,
        refused.status == 501 && start.status == 501 && stop.status == 501 && bundle.status == 501,
        refused.message@ == what@ + " \u{2014} Phase 2, not implemented yet"@,
        start.message@ == "capture/start (adb screenrecord + logcat to output-dir)"@
            + " \u{2014} Phase 2, not implemented yet"@,
        stop.message@ == "capture/stop (finalize mp4/log artifacts)"@
            + " \u{2014} Phase 2, not implemented yet"@,
        bundle.message@ == "smoke/report (JUnit XML + JSON artifact bundle)"@
            + " \u{2014} Phase 2, not implemented yet"@,
{
}

/// A request that is served gets a lease on each of its devices, in order, on the device's
/// own server and for its own task; one that is not leaves the table as it was.
pub proof fn law_serving_requests(
    leases: &mut LeaseTable,
    req: &AcquireReq,
    available: &Vec<DeviceRef>,
    now: u64,
    r: Result<AcquireResp, ApiError>,
    k: int,
)
    requires
        call_ensures(acquire_devices, (leases, req, available, now), r),
    ensures
        ({
            let devices = picked(old(leases)@, req, available.deep_view());
            &&& r is Ok <==> devices.len() > 0
            &&& r is Ok ==> r->Ok_0.task_id@ == req.task_id@ && r->Ok_0.devices@.len()
                == devices.len()
            &&& r is Ok && 0 <= k < devices.len() ==> {
                let lease = r->Ok_0.devices@[k];
                &&& lease.serial@ == devices[k].serial
                &&& lease.server_host@ == devices[k].host
                &&& lease.server_port == devices[k].port
                &&& lease.task_id@ == req.task_id@
                &&& lease.expires_at == expiry(req, now)
                &&& final(leases)@.dom().contains(devices[k].serial)
                &&& final(leases)@[devices[k].serial].task == req.task_id@
                &&& final(leases)@[devices[k].serial].expires_at == expiry(req, now)
            }
            &&& r is Err ==> final(leases)@ == old(leases)@ && r->Err_0.status == 409
                && r->Err_0.message@ == "no idle devices available for lease"@
        }),
{
    let devices = picked(old(leases)@, req, available.deep_view());
    if r is Ok {
        let got = r->Ok_0.devices;
        assert(got.deep_view().len() == got@.len());
        if 0 <= k < devices.len() {
            assert(got.deep_view()[k] == got@[k].deep_view());
            assert(has_serial(devices, devices[k].serial));
            law_grant_touches_its_devices_only(
                old(leases)@,
                devices,
                req.task_id@,
                expiry(req, now),
                devices[k].serial,
            );
        }
    }
}

/// A release ends exactly the leases of its task and tells how many they were.
pub proof fn law_serving_releases(
    leases: &mut LeaseTable,
    task_id: &str,
    r: usize,
    serial: Seq<char>,
)
    requires
        call_ensures(release_devices, (leases, task_id), r),
    ensures
        final(leases)@.dom().contains(serial) <==> old(leases)@.dom().contains(serial) && old(
            leases,
        )@[serial].task != task_id@,
        final(leases)@.dom().contains(serial) ==> final(leases)@[serial] == old(leases)@[serial],
        r == held_by(old(leases)@, task_id@).len(),
{
}

} // verus!
