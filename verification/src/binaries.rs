//! Locating the external `adb` and `scrcpy` executables.
//!
//! Resolution order, per binary:
//!   1. an explicit override (`ADB_PATH` / `SCRCPY_PATH`)
//!   2. the inherited PATH
//!   3. well-known install locations for the platform
//!   4. the bare name, so a genuinely missing tool still produces the familiar
//!      error text rather than a confusing absolute path
//!
//! What is found is made absolute, so that it means the same file when the working
//! directory changes. A successful lookup is cached; a failed one is deliberately
//! *not*, so a tool installed while the application runs is picked up on the next
//! attempt.
//!
//! Whether a path is an executable file is asked through a probe that the
//! caller supplies; everything else is decided here.
use vstd::prelude::*;

use crate::paths::{
    absolute_of, absolute_path, is_absolute, join_path, joined_path, law_absolute_of_is_absolute,
    Platform,
};
use crate::text::{concat2, push_text};

verus! {

/// What the lookup reads of the process environment.
pub struct ToolEnv {
    pub platform: Platform,
    /// Appended to a tool's name to give its file name (`.exe` on Windows).
    pub exe_suffix: String,
    /// `HOME`.
    pub home: Option<String>,
    /// `USERPROFILE`, which stands in for a missing `HOME`.
    pub user_profile: Option<String>,
    /// `LOCALAPPDATA`.
    pub local_app_data: Option<String>,
    /// `ANDROID_HOME`.
    pub android_home: Option<String>,
    /// `ANDROID_SDK_ROOT`.
    pub android_sdk_root: Option<String>,
    /// The directories of `PATH`, none when it is unset.
    pub path: Vec<String>,
    /// `ADB_PATH`.
    pub adb_path: Option<String>,
    /// `SCRCPY_PATH`.
    pub scrcpy_path: Option<String>,
    /// The working directory.
    pub working_dir: String,
    /// On Windows, the current directories of the drives that have one.
    pub drive_dirs: Vec<String>,
}

/// The Unix permission bits that let somebody execute a file.
pub const ANY_EXECUTE_BIT: u32 = 0o111;

/// What file metadata says of a path that exists.
#[derive(Clone, Copy, PartialEq, Eq, Structural, Debug)]
pub struct FileFacts {
    pub is_file: bool,
    /// The permission bits. Not looked at on Windows.
    pub mode: u32,
}

/// Whether a path with this metadata (`None`: it could not be read) is an
/// executable file. On Windows every regular file qualifies.
pub fn is_executable(platform: Platform, facts: Option<FileFacts>) -> (r: bool)
    ensures
        r == (match facts {
            None => false,
            Some(f) => f.is_file && (platform == Platform::Windows || f.mode & ANY_EXECUTE_BIT
                != 0),
        }),
{
    match facts {
        None => false,
        Some(f) => f.is_file && (platform == Platform::Windows || f.mode & ANY_EXECUTE_BIT != 0),
    }
}

// ---------------------------------------------------------------------------
// Directories
// ---------------------------------------------------------------------------

/// The user's home directory.
pub open spec fn home_of(env: &ToolEnv) -> Option<Seq<char>> {
    if env.home is Some {
        env.home.deep_view()
    } else {
        env.user_profile.deep_view()
    }
}

/// The directory `rel` below `root`, when there is a root.
pub open spec fn below(platform: Platform, root: Option<Seq<char>>, rel: Seq<char>) -> Seq<
    Seq<char>,
> {
    match root {
        Some(r) => seq![joined_path(platform, r, rel)],
        None => Seq::empty(),
    }
}

/// Directories that hold user-installed tools: on Unix Homebrew's on either
/// architecture, the system's, then the user's own.
pub open spec fn common_bin_dirs_of(env: &ToolEnv) -> Seq<Seq<char>> {
    match env.platform {
        Platform::Windows => below(
            env.platform,
            env.local_app_data.deep_view(),
            "Android\\Sdk\\platform-tools"@,
        ),
        Platform::Unix => seq![
            "/opt/homebrew/bin"@,
            "/usr/local/bin"@,
            "/usr/bin"@,
            "/bin"@,
        ] + below(env.platform, home_of(env), ".local/bin"@),
    }
}

/// Directories searched for `adb` when PATH has none: an explicitly configured
/// SDK, the usual tool directories, then the SDK's default locations.
pub open spec fn adb_dirs_of(env: &ToolEnv) -> Seq<Seq<char>> {
    below(env.platform, env.android_home.deep_view(), "platform-tools"@) + below(
        env.platform,
        env.android_sdk_root.deep_view(),
        "platform-tools"@,
    ) + common_bin_dirs_of(env) + below(
        env.platform,
        home_of(env),
        "Library/Android/sdk/platform-tools"@,
    ) + below(env.platform, home_of(env), "Android/Sdk/platform-tools"@)
}

/// The user's home directory: `HOME`, else `USERPROFILE`.
pub fn home_dir(env: &ToolEnv) -> (r: Option<String>)
    ensures
        r.deep_view() == home_of(env),
{
    match &env.home {
        Some(h) => Some(h.clone()),
        None => match &env.user_profile {
            Some(u) => Some(u.clone()),
            None => None,
        },
    }
}

fn push_below(dirs: &mut Vec<String>, platform: Platform, root: &Option<String>, rel: &str)
    ensures
        final(dirs).deep_view() == old(dirs).deep_view() + below(
            platform,
            root.deep_view(),
            rel@,
        ),
{
    if let Some(r) = root {
        dirs.push(join_path(platform, r.as_str(), rel));
    }
    proof {
        assert(dirs.deep_view() =~= old(dirs).deep_view() + below(
            platform,
            root.deep_view(),
            rel@,
        ));
    }
}

/// Directories that hold user-installed command-line tools on this platform.
pub fn common_bin_dirs(env: &ToolEnv) -> (r: Vec<String>)
    ensures
        r.deep_view() == common_bin_dirs_of(env),
{
    let mut dirs: Vec<String> = Vec::new();
    proof {
        assert(dirs.deep_view() =~= Seq::empty());
    }
    match env.platform {
        Platform::Windows => {
            push_below(
                &mut dirs,
                env.platform,
                &env.local_app_data,
                "Android\\Sdk\\platform-tools",
            );
        },
        Platform::Unix => {
            push_text(&mut dirs, "/opt/homebrew/bin");
            push_text(&mut dirs, "/usr/local/bin");
            push_text(&mut dirs, "/usr/bin");
            push_text(&mut dirs, "/bin");
            let home = home_dir(env);
            push_below(&mut dirs, env.platform, &home, ".local/bin");
        },
    }
    proof {
        assert(dirs.deep_view() =~= common_bin_dirs_of(env));
    }
    dirs
}

/// Directories searched for `adb` after PATH.
///
/// The order is deliberately *not* SDK-defaults first. Two adb builds of
/// different versions repeatedly kill and restart each other's server, so the
/// list is meant to land on the same binary that a terminal would pick.
pub fn adb_dirs(env: &ToolEnv) -> (r: Vec<String>)
    ensures
        r.deep_view() == adb_dirs_of(env),
{
    let mut dirs: Vec<String> = Vec::new();
    proof {
        assert(dirs.deep_view() =~= Seq::empty());
    }
    push_below(&mut dirs, env.platform, &env.android_home, "platform-tools");
    push_below(&mut dirs, env.platform, &env.android_sdk_root, "platform-tools");
    let ghost before = dirs.deep_view();
    let mut common = common_bin_dirs(env);
    let ghost middle = common.deep_view();
    dirs.append(&mut common);
    proof {
        assert(dirs.deep_view() =~= before + middle);
    }
    let home = home_dir(env);
    push_below(&mut dirs, env.platform, &home, "Library/Android/sdk/platform-tools");
    push_below(&mut dirs, env.platform, &home, "Android/Sdk/platform-tools");
    proof {
        assert(dirs.deep_view() =~= adb_dirs_of(env));
    }
    dirs
}

/// Directories searched for `scrcpy` after PATH.
pub fn scrcpy_dirs(env: &ToolEnv) -> (r: Vec<String>)
    ensures
        r.deep_view() == common_bin_dirs_of(env),
{
    common_bin_dirs(env)
}

// ---------------------------------------------------------------------------
// Search
// ---------------------------------------------------------------------------

/// Whether asking `probe` about `path` can give `answer`.
pub open spec fn answers<F: Fn(&str) -> bool>(probe: F, path: Seq<char>, answer: bool) -> bool {
    exists|p: &str| p@ == path && #[trigger] call_ensures(probe, (p,), answer)
}

/// Whether `probe` may be asked about any path.
pub open spec fn total<F: Fn(&str) -> bool>(probe: F) -> bool {
    forall|p: &str| #[trigger] call_requires(probe, (p,))
}

/// Whether `probe` never contradicts itself.
pub open spec fn consistent<F: Fn(&str) -> bool>(probe: F) -> bool {
    forall|path: Seq<char>| !(#[trigger] answers(probe, path, true) && answers(probe, path, false))
}

/// Whether `found` is the first of `candidates` of which the probe approves.
pub open spec fn first_approved<F: Fn(&str) -> bool>(
    probe: F,
    candidates: Seq<Seq<char>>,
    found: Option<Seq<char>>,
) -> bool {
    match found {
        Some(path) => exists|i: int|
            {
                &&& 0 <= i < candidates.len()
                &&& path == #[trigger] candidates[i]
                &&& answers(probe, path, true)
                &&& forall|j: int| 0 <= j < i ==> answers(probe, #[trigger] candidates[j], false)
            },
        None => forall|j: int|
            0 <= j < candidates.len() ==> answers(probe, #[trigger] candidates[j], false),
    }
}

/// `file` in each of `dirs`.
pub open spec fn in_each(platform: Platform, dirs: Seq<Seq<char>>, file: Seq<char>) -> Seq<
    Seq<char>,
> {
    Seq::new(dirs.len(), |i: int| joined_path(platform, dirs[i], file))
}

/// Whether `found` is what a search of `dirs`, in order, for an executable
/// `file` comes to.
pub open spec fn searched<F: Fn(&str) -> bool>(
    probe: F,
    platform: Platform,
    file: Seq<char>,
    dirs: Seq<Seq<char>>,
    found: Option<Seq<char>>,
) -> bool {
    first_approved(probe, in_each(platform, dirs, file), found)
}

/// The first `dir/file` that the probe calls executable.
pub fn find_in_dirs<F: Fn(&str) -> bool>(
    platform: Platform,
    file: &str,
    dirs: &Vec<String>,
    probe: &F,
) -> (r: Option<String>)
    requires
        total(*probe),
    ensures
        searched(*probe, platform, file@, dirs.deep_view(), r.deep_view()),
{
    let ghost candidates = in_each(platform, dirs.deep_view(), file@);
    let mut i: usize = 0;
    while i < dirs.len()
        invariant
            i <= dirs.len(),
            total(*probe),
            candidates == in_each(platform, dirs.deep_view(), file@),
            forall|j: int| 0 <= j < i ==> answers(*probe, #[trigger] candidates[j], false),
        decreases dirs.len() - i,
    {
        let candidate = join_path(platform, dirs[i].as_str(), file);
        let hit = probe(candidate.as_str());
        proof {
            assert(candidates[i as int] == candidate@);
            assert(answers(*probe, candidate@, hit));
        }
        if hit {
            return Some(candidate);
        }
        i += 1;
    }
    None
}

/// Whether `found` is what resolving a tool comes to: a usable override, else
/// PATH, else the well-known directories.
pub open spec fn resolves<F: Fn(&str) -> bool>(
    probe: F,
    env: &ToolEnv,
    name: Seq<char>,
    override_value: Option<Seq<char>>,
    dirs: Seq<Seq<char>>,
    found: Option<Seq<char>>,
) -> bool {
    let file = name + env.exe_suffix@;
    ||| {
        &&& override_value is Some
        &&& answers(probe, override_value->0, true)
        &&& found == override_value
    }
    ||| {
        &&& override_value is Some ==> answers(probe, override_value->0, false)
        &&& found is Some
        &&& searched(probe, env.platform, file, env.path.deep_view(), found)
    }
    ||| {
        &&& override_value is Some ==> answers(probe, override_value->0, false)
        &&& searched(probe, env.platform, file, env.path.deep_view(), None)
        &&& searched(probe, env.platform, file, dirs, found)
    }
}

/// Resolves a tool, given the value of its override variable. An override that
/// is not an executable file is ignored.
pub fn resolve_with<F: Fn(&str) -> bool>(
    env: &ToolEnv,
    name: &str,
    override_value: &Option<String>,
    dirs: &Vec<String>,
    probe: &F,
) -> (r: Option<String>)
    requires
        total(*probe),
    ensures
        resolves(
            *probe,
            env,
            name@,
            override_value.deep_view(),
            dirs.deep_view(),
            r.deep_view(),
        ),
{
    if let Some(overridden) = override_value {
        let usable = probe(overridden.as_str());
        proof {
            assert(answers(*probe, overridden@, usable));
        }
        if usable {
            return Some(overridden.clone());
        }
    }
    let file = concat2(name, env.exe_suffix.as_str());
    match find_in_dirs(env.platform, file.as_str(), &env.path, probe) {
        Some(found) => Some(found),
        None => find_in_dirs(env.platform, file.as_str(), dirs, probe),
    }
}

/// The path that `path` stands for in the working directory.
pub open spec fn located(env: &ToolEnv, path: Seq<char>) -> Seq<char> {
    absolute_of(env.platform, env.working_dir@, env.drive_dirs.deep_view(), path)
}

/// What looking a tool up anew comes to: what it resolves to is made absolute and
/// cached; if it resolves to nothing, the cache stays empty and the bare name is
/// the result.
pub open spec fn looked_up_anew<F: Fn(&str) -> bool>(
    probe: F,
    env: &ToolEnv,
    name: Seq<char>,
    override_value: Option<Seq<char>>,
    dirs: Seq<Seq<char>>,
    result: Seq<char>,
    cached_after: Option<Seq<char>>,
) -> bool {
    exists|found: Option<Seq<char>>|
        {
            &&& #[trigger] resolves(probe, env, name, override_value, dirs, found)
            &&& match found {
                Some(path) => result == located(env, path) && cached_after == Some(result),
                None => result == name && cached_after is None,
            }
        }
}

/// What a lookup through a cache comes to: a cached path is returned as it is;
/// otherwise the tool is looked up anew.
pub open spec fn looked_up<F: Fn(&str) -> bool>(
    probe: F,
    env: &ToolEnv,
    name: Seq<char>,
    override_value: Option<Seq<char>>,
    dirs: Seq<Seq<char>>,
    cached: Option<Seq<char>>,
    result: Seq<char>,
    cached_after: Option<Seq<char>>,
) -> bool {
    match cached {
        Some(hit) => result == hit && cached_after == cached,
        None => looked_up_anew(probe, env, name, override_value, dirs, result, cached_after),
    }
}

/// Whether a lookup in this environment and through this cache is bound to give an
/// absolute path or the bare name: the working directory is absolute, and so is
/// what is cached.
pub open spec fn anchored(env: &ToolEnv, cached: Option<Seq<char>>) -> bool {
    &&& is_absolute(env.platform, env.working_dir@)
    &&& cached is Some ==> is_absolute(env.platform, cached->0)
}

/// Looks a tool up through `cache`.
pub fn resolved<F: Fn(&str) -> bool>(
    cache: &mut Option<String>,
    env: &ToolEnv,
    name: &str,
    override_value: &Option<String>,
    dirs: &Vec<String>,
    probe: &F,
) -> (r: String)
    requires
        total(*probe),
    ensures
        looked_up(
            *probe,
            env,
            name@,
            override_value.deep_view(),
            dirs.deep_view(),
            old(cache).deep_view(),
            r@,
            final(cache).deep_view(),
        ),
        anchored(env, old(cache).deep_view()) ==> is_absolute(env.platform, r@) || r@ == name@,
        anchored(env, old(cache).deep_view()) ==> anchored(env, final(cache).deep_view()),
{
    if let Some(hit) = &*cache {
        return hit.clone();
    }
    let found = resolve_with(env, name, override_value, dirs, probe);
    proof {
        assert(resolves(
            *probe,
            env,
            name@,
            override_value.deep_view(),
            dirs.deep_view(),
            found.deep_view(),
        ));
    }
    match found {
        Some(path) => {
            let absolute = absolute_path(
                env.platform,
                env.working_dir.as_str(),
                &env.drive_dirs,
                path.as_str(),
            );
            proof {
                law_absolute_of_is_absolute(
                    env.platform,
                    env.working_dir@,
                    env.drive_dirs.deep_view(),
                    path@,
                );
            }
            *cache = Some(absolute.clone());
            absolute
        },
        None => name.to_owned(),
    }
}

/// Absolute path to `adb`, or the bare name if it could not be found.
pub fn adb<F: Fn(&str) -> bool>(cache: &mut Option<String>, env: &ToolEnv, probe: &F) -> (r: String)
    requires
        total(*probe),
    ensures
        looked_up(
            *probe,
            env,
            "adb"@,
            env.adb_path.deep_view(),
            adb_dirs_of(env),
            old(cache).deep_view(),
            r@,
            final(cache).deep_view(),
        ),
        anchored(env, old(cache).deep_view()) ==> is_absolute(env.platform, r@) || r@ == "adb"@,
        anchored(env, old(cache).deep_view()) ==> anchored(env, final(cache).deep_view()),
{
    let dirs = adb_dirs(env);
    resolved(cache, env, "adb", &env.adb_path, &dirs, probe)
}

/// Absolute path to `scrcpy`, or the bare name if it could not be found.
pub fn scrcpy<F: Fn(&str) -> bool>(
    cache: &mut Option<String>,
    env: &ToolEnv,
    probe: &F,
) -> (r: String)
    requires
        total(*probe),
    ensures
        looked_up(
            *probe,
            env,
            "scrcpy"@,
            env.scrcpy_path.deep_view(),
            common_bin_dirs_of(env),
            old(cache).deep_view(),
            r@,
            final(cache).deep_view(),
        ),
        anchored(env, old(cache).deep_view()) ==> is_absolute(env.platform, r@) || r@ == "scrcpy"@,
        anchored(env, old(cache).deep_view()) ==> anchored(env, final(cache).deep_view()),
{
    let dirs = scrcpy_dirs(env);
    resolved(cache, env, "scrcpy", &env.scrcpy_path, &dirs, probe)
}

// ---------------------------------------------------------------------------
// Laws
// ---------------------------------------------------------------------------

/// What a consistent probe approves first is determined by the candidates.
pub proof fn law_first_approved_is_determined<F: Fn(&str) -> bool>(
    probe: F,
    candidates: Seq<Seq<char>>,
    one: Option<Seq<char>>,
    two: Option<Seq<char>>,
)
    requires
        consistent(probe),
        first_approved(probe, candidates, one),
        first_approved(probe, candidates, two),
    ensures
        one == two,
{
    if one is Some {
        let i = lemma_first_hit(probe, candidates, one->0);
        if two is Some {
            let k = lemma_first_hit(probe, candidates, two->0);
            if i < k {
                assert(answers(probe, candidates[i], false));
            }
            if k < i {
                assert(answers(probe, candidates[k], false));
            }
        } else {
            assert(answers(probe, candidates[i], false));
        }
    } else if two is Some {
        let k = lemma_first_hit(probe, candidates, two->0);
        assert(answers(probe, candidates[k], false));
    }
}

proof fn lemma_first_hit<F: Fn(&str) -> bool>(
    probe: F,
    candidates: Seq<Seq<char>>,
    path: Seq<char>,
) -> (i: int)
    requires
        first_approved(probe, candidates, Some(path)),
    ensures
        0 <= i < candidates.len(),
        path == candidates[i],
        answers(probe, path, true),
        forall|j: int| 0 <= j < i ==> answers(probe, #[trigger] candidates[j], false),
{
    choose|i: int|
        {
            &&& 0 <= i < candidates.len()
            &&& path == #[trigger] candidates[i]
            &&& answers(probe, path, true)
            &&& forall|j: int| 0 <= j < i ==> answers(probe, #[trigger] candidates[j], false)
        }
}

/// The resolution order: a usable override wins over everything, a hit on PATH
/// wins over the well-known directories, and an unusable override hides neither.
pub proof fn law_resolution_order<F: Fn(&str) -> bool>(
    probe: F,
    env: &ToolEnv,
    name: Seq<char>,
    override_value: Option<Seq<char>>,
    dirs: Seq<Seq<char>>,
    found: Option<Seq<char>>,
    via_path: Option<Seq<char>>,
    via_dirs: Option<Seq<char>>,
)
    requires
        consistent(probe),
        resolves(probe, env, name, override_value, dirs, found),
        searched(probe, env.platform, name + env.exe_suffix@, env.path.deep_view(), via_path),
        searched(probe, env.platform, name + env.exe_suffix@, dirs, via_dirs),
    ensures
        override_value is Some && answers(probe, override_value->0, true) ==> found
            == override_value,
        override_value is Some && answers(probe, override_value->0, false) || override_value is None
            ==> found == (if via_path is Some {
            via_path
        } else {
            via_dirs
        }),
{
    let file = name + env.exe_suffix@;
    let on_path = in_each(env.platform, env.path.deep_view(), file);
    let on_dirs = in_each(env.platform, dirs, file);
    if first_approved(probe, on_path, found) {
        law_first_approved_is_determined(probe, on_path, found, via_path);
    }
    if first_approved(probe, on_path, None) {
        law_first_approved_is_determined(probe, on_path, None, via_path);
    }
    if first_approved(probe, on_dirs, found) {
        law_first_approved_is_determined(probe, on_dirs, found, via_dirs);
    }
}

/// A lookup gives an absolute path or the bare name, and leaves an absolute path or
/// nothing behind, in an absolute working directory and through a cache that did
/// not hold a relative path before.
pub proof fn law_lookups_are_absolute<F: Fn(&str) -> bool>(
    probe: F,
    env: &ToolEnv,
    name: Seq<char>,
    override_value: Option<Seq<char>>,
    dirs: Seq<Seq<char>>,
    cached: Option<Seq<char>>,
    result: Seq<char>,
    after: Option<Seq<char>>,
)
    requires
        looked_up(probe, env, name, override_value, dirs, cached, result, after),
        anchored(env, cached),
    ensures
        is_absolute(env.platform, result) || result == name,
        anchored(env, after),
{
    if cached is None {
        let found = choose|found: Option<Seq<char>>|
            {
                &&& #[trigger] resolves(probe, env, name, override_value, dirs, found)
                &&& match found {
                    Some(path) => result == located(env, path) && after == Some(result),
                    None => result == name && after is None,
                }
            };
        if let Some(path) = found {
            law_absolute_of_is_absolute(
                env.platform,
                env.working_dir@,
                env.drive_dirs.deep_view(),
                path,
            );
        }
    }
}

/// An override that is an absolute path is taken as it is.
pub proof fn law_absolute_override_is_kept<F: Fn(&str) -> bool>(
    probe: F,
    env: &ToolEnv,
    name: Seq<char>,
    path: Seq<char>,
    dirs: Seq<Seq<char>>,
    result: Seq<char>,
    after: Option<Seq<char>>,
)
    requires
        consistent(probe),
        answers(probe, path, true),
        is_absolute(env.platform, path),
        looked_up(probe, env, name, Some(path), dirs, None, result, after),
    ensures
        result == path,
        after == Some(path),
{
    law_absolute_of_is_absolute(env.platform, env.working_dir@, env.drive_dirs.deep_view(), path);
}

/// A lookup that finds the tool fixes the answer: every later lookup through
/// the same cache returns it, whatever the environment and the disk look like
/// by then.
pub proof fn law_success_is_kept<F: Fn(&str) -> bool, G: Fn(&str) -> bool>(
    probe: F,
    env: &ToolEnv,
    name: Seq<char>,
    override_value: Option<Seq<char>>,
    dirs: Seq<Seq<char>>,
    cached: Option<Seq<char>>,
    result: Seq<char>,
    after: Option<Seq<char>>,
    later_probe: G,
    later_env: &ToolEnv,
    later_override: Option<Seq<char>>,
    later_dirs: Seq<Seq<char>>,
    later_result: Seq<char>,
    later_after: Option<Seq<char>>,
)
    requires
        looked_up(probe, env, name, override_value, dirs, cached, result, after),
        after is Some,
        looked_up(
            later_probe,
            later_env,
            name,
            later_override,
            later_dirs,
            after,
            later_result,
            later_after,
        ),
    ensures
        later_result == result,
        later_after == after,
{
}

/// A lookup that fails leaves nothing behind: the next one resolves the tool
/// anew, so a tool installed in the meantime is found.
pub proof fn law_failure_is_not_kept<F: Fn(&str) -> bool, G: Fn(&str) -> bool>(
    probe: F,
    env: &ToolEnv,
    name: Seq<char>,
    override_value: Option<Seq<char>>,
    dirs: Seq<Seq<char>>,
    result: Seq<char>,
    later_probe: G,
    later_env: &ToolEnv,
    later_override: Option<Seq<char>>,
    later_dirs: Seq<Seq<char>>,
    later_result: Seq<char>,
    later_after: Option<Seq<char>>,
)
    requires
        looked_up(probe, env, name, override_value, dirs, None, result, None),
        looked_up(
            later_probe,
            later_env,
            name,
            later_override,
            later_dirs,
            None,
            later_result,
            later_after,
        ),
    ensures
        result == name,
        looked_up_anew(
            later_probe,
            later_env,
            name,
            later_override,
            later_dirs,
            later_result,
            later_after,
        ),
{
}

/// An explicitly configured SDK is searched first, each variable on its own: the
/// directory of `ANDROID_HOME` comes before all others whenever it is set, and that of
/// `ANDROID_SDK_ROOT` right behind it, or first where `ANDROID_HOME` is not set.
pub proof fn law_configured_sdk_is_searched_first(env: &ToolEnv)
    ensures
        env.android_home is Some ==> adb_dirs_of(env).len() > 0 && adb_dirs_of(env)[0]
            == joined_path(env.platform, env.android_home->0@, "platform-tools"@),
        env.android_sdk_root is Some && env.android_home is Some ==> adb_dirs_of(env).len() > 1
            && adb_dirs_of(env)[1] == joined_path(
            env.platform,
            env.android_sdk_root->0@,
            "platform-tools"@,
        ),
        env.android_sdk_root is Some && env.android_home is None ==> adb_dirs_of(env).len() > 0
            && adb_dirs_of(env)[0] == joined_path(
            env.platform,
            env.android_sdk_root->0@,
            "platform-tools"@,
        ),
{
}

/// How many SDK directories are configured explicitly.
pub open spec fn configured_sdks(env: &ToolEnv) -> int {
    (if env.android_home is Some {
        1int
    } else {
        0
    }) + (if env.android_sdk_root is Some {
        1int
    } else {
        0
    })
}

/// Behind the configured SDK come all the common tool directories, in their order, and
/// behind these the two places where an SDK is put by default, where the home directory
/// is known; nothing else.
pub proof fn law_default_sdk_is_searched_last(env: &ToolEnv)
    ensures
        ({
            let dirs = adb_dirs_of(env);
            let common = common_bin_dirs_of(env);
            let n = configured_sdks(env);
            let m = n + common.len();
            &&& dirs.subrange(n, m) =~= common
            &&& env.home is None && env.user_profile is None ==> dirs.len() == m
            &&& env.home is Some ==> dirs.len() == m + 2 && dirs[m] == joined_path(
                env.platform,
                env.home->0@,
                "Library/Android/sdk/platform-tools"@,
            ) && dirs[m + 1] == joined_path(
                env.platform,
                env.home->0@,
                "Android/Sdk/platform-tools"@,
            )
            &&& env.home is None && env.user_profile is Some ==> dirs.len() == m + 2 && dirs[m]
                == joined_path(
                env.platform,
                env.user_profile->0@,
                "Library/Android/sdk/platform-tools"@,
            ) && dirs[m + 1] == joined_path(
                env.platform,
                env.user_profile->0@,
                "Android/Sdk/platform-tools"@,
            )
        }),
{
}

/// The common tool directories: on Unix Homebrew's and the system's, then that of the
/// user where the home directory is known; on Windows that of the SDK, where the local
/// application data are known.
pub proof fn law_common_directories(env: &ToolEnv)
    ensures
        env.platform == Platform::Unix ==> {
            let dirs = common_bin_dirs_of(env);
            &&& dirs.len() >= 4
            &&& dirs[0] == "/opt/homebrew/bin"@
            &&& dirs[1] == "/usr/local/bin"@
            &&& dirs[2] == "/usr/bin"@
            &&& dirs[3] == "/bin"@
            &&& env.home is None && env.user_profile is None ==> dirs.len() == 4
            &&& env.home is Some ==> dirs.len() == 5 && dirs[4] == joined_path(
                Platform::Unix,
                env.home->0@,
                ".local/bin"@,
            )
            &&& env.home is None && env.user_profile is Some ==> dirs.len() == 5 && dirs[4]
                == joined_path(Platform::Unix, env.user_profile->0@, ".local/bin"@)
        },
        env.platform == Platform::Windows ==> {
            let dirs = common_bin_dirs_of(env);
            &&& env.local_app_data is None ==> dirs.len() == 0
            &&& env.local_app_data is Some ==> dirs.len() == 1 && dirs[0] == joined_path(
                Platform::Windows,
                env.local_app_data->0@,
                "Android\\Sdk\\platform-tools"@,
            )
        },
{
}

/// What the directory functions return: `HOME` wins over `USERPROFILE`, and `scrcpy` is
/// looked for in the common directories alone.
pub proof fn law_directories(
    env: &ToolEnv,
    home: Option<String>,
    common: Vec<String>,
    for_adb: Vec<String>,
    for_scrcpy: Vec<String>,
)
    requires
        call_ensures(home_dir, (env,), home),
        call_ensures(common_bin_dirs, (env,), common),
        call_ensures(adb_dirs, (env,), for_adb),
        call_ensures(scrcpy_dirs, (env,), for_scrcpy),
    ensures
        env.home is Some ==> home is Some && home->0@ == env.home->0@,
        env.home is None && env.user_profile is Some ==> home is Some && home->0@
            == env.user_profile->0@,
        env.home is None && env.user_profile is None ==> home is None,
        common.deep_view() == common_bin_dirs_of(env),
        for_adb.deep_view() == adb_dirs_of(env),
        for_scrcpy.deep_view() == common.deep_view(),
{
}

/// An executable is a regular file, on Unix one with an execute bit for somebody.
pub proof fn law_executables(platform: Platform, facts: Option<FileFacts>, r: bool)
    requires
        call_ensures(is_executable, (platform, facts), r),
    ensures
        facts is None ==> !r,
        facts is Some && !facts->0.is_file ==> !r,
        facts is Some && facts->0.is_file && platform == Platform::Windows ==> r,
        facts is Some && facts->0.is_file && platform == Platform::Unix ==> (r <==> facts->0.mode
            & 0o111u32 != 0),
{
}

/// A search takes the first hit: what is found lies in one of the directories, the probe
/// approved of it, and it had turned down the file in every directory before.
pub proof fn law_the_first_hit_wins<F: Fn(&str) -> bool>(
    platform: Platform,
    file: &str,
    dirs: &Vec<String>,
    probe: &F,
    r: Option<String>,
)
    requires
        call_ensures(find_in_dirs::<F>, (platform, file, dirs, probe), r),
    ensures
        r matches Some(path) ==> exists|i: int|
            {
                &&& 0 <= i < dirs@.len()
                &&& path@ == joined_path(platform, (#[trigger] dirs@[i])@, file@)
                &&& exists|p: &str| p@ == path@ && #[trigger] call_ensures(*probe, (p,), true)
                &&& forall|j: int|
                    0 <= j < i ==> answers(
                        *probe,
                        joined_path(platform, (#[trigger] dirs@[j])@, file@),
                        false,
                    )
            },
        r is None ==> forall|j: int|
            0 <= j < dirs@.len() ==> answers(
                *probe,
                joined_path(platform, (#[trigger] dirs@[j])@, file@),
                false,
            ),
{
    let all = dirs.deep_view();
    let candidates = in_each(platform, all, file@);
    assert(all.len() == dirs@.len());
    if let Some(path) = r {
        let i = lemma_first_hit(*probe, candidates, path@);
        assert(dirs@[i]@ == all[i]);
        assert forall|j: int| 0 <= j < i implies answers(
            *probe,
            joined_path(platform, (#[trigger] dirs@[j])@, file@),
            false,
        ) by {
            assert(all[j] == dirs@[j]@);
            assert(answers(*probe, candidates[j], false));
        }
    } else {
        assert forall|j: int| 0 <= j < dirs@.len() implies answers(
            *probe,
            joined_path(platform, (#[trigger] dirs@[j])@, file@),
            false,
        ) by {
            assert(all[j] == dirs@[j]@);
            assert(answers(*probe, candidates[j], false));
        }
    }
}

/// What it means that a probe gave an answer, and that it may be asked anything.
pub proof fn law_answers_are_the_probe_s_own<F: Fn(&str) -> bool>(
    probe: F,
    path: &str,
    answer: bool,
)
    ensures
        call_ensures(probe, (path,), answer) ==> answers(probe, path@, answer),
        answers(probe, path@, answer) ==> exists|p: &str|
            p@ == path@ && #[trigger] call_ensures(probe, (p,), answer),
        total(probe) ==> call_requires(probe, (path,)),
        consistent(probe) && answers(probe, path@, true) ==> !answers(probe, path@, false),
{
}

/// Resolving a tool: an override of which the probe approves is the result; otherwise a
/// hit on PATH is; otherwise a hit in the other directories is; otherwise there is none.
/// The file looked for is the name with the platform's suffix.
pub proof fn law_resolving<F: Fn(&str) -> bool>(
    env: &ToolEnv,
    name: &str,
    override_value: &Option<String>,
    dirs: &Vec<String>,
    probe: &F,
    r: Option<String>,
    via_path: Option<Seq<char>>,
    via_dirs: Option<Seq<char>>,
)
    requires
        call_ensures(resolve_with::<F>, (env, name, override_value, dirs, probe), r),
        consistent(*probe),
        first_approved(
            *probe,
            in_each(env.platform, env.path.deep_view(), name@ + env.exe_suffix@),
            via_path,
        ),
        first_approved(
            *probe,
            in_each(env.platform, dirs.deep_view(), name@ + env.exe_suffix@),
            via_dirs,
        ),
    ensures
        override_value is Some && answers(*probe, override_value->0@, true) ==> r is Some && r->0@
            == override_value->0@,
        (override_value is None || answers(*probe, override_value->0@, false)) && via_path is Some
            ==> r is Some && r->0@ == via_path->0,
        (override_value is None || answers(*probe, override_value->0@, false)) && via_path is None
            && via_dirs is Some ==> r is Some && r->0@ == via_dirs->0,
        (override_value is None || answers(*probe, override_value->0@, false)) && via_path is None
            && via_dirs is None ==> r is None,
{
    law_resolution_order(
        *probe,
        env,
        name@,
        override_value.deep_view(),
        dirs.deep_view(),
        r.deep_view(),
        via_path,
        via_dirs,
    );
}

/// The candidates of a search are the file in each directory, in the order of these.
pub proof fn law_candidates(platform: Platform, dirs: Seq<Seq<char>>, file: Seq<char>, i: int)
    ensures
        in_each(platform, dirs, file).len() == dirs.len(),
        0 <= i < dirs.len() ==> in_each(platform, dirs, file)[i] == joined_path(
            platform,
            dirs[i],
            file,
        ),
{
}

/// Looking a tool up with nothing cached gives what it resolves to, made absolute, and
/// caches just that; where it resolves to nothing, the result is the bare name and
/// nothing is cached.
pub proof fn law_lookup_follows_resolution<F: Fn(&str) -> bool>(
    cache: &mut Option<String>,
    env: &ToolEnv,
    name: &str,
    override_value: &Option<String>,
    dirs: &Vec<String>,
    probe: &F,
    r: String,
    found: Option<Seq<char>>,
)
    requires
        call_ensures(resolved::<F>, (cache, env, name, override_value, dirs, probe), r),
        (*old(cache)) is None,
        consistent(*probe),
        resolves(*probe, env, name@, override_value.deep_view(), dirs.deep_view(), found),
    ensures
        found is Some ==> r@ == absolute_of(
            env.platform,
            env.working_dir@,
            env.drive_dirs.deep_view(),
            found->0,
        ) && (*final(cache)) is Some && (*final(cache))->0@ == r@,
        found is None ==> r@ == name@ && (*final(cache)) is None,
{
    let other = choose|other: Option<Seq<char>>|
        {
            &&& #[trigger] resolves(
                *probe,
                env,
                name@,
                override_value.deep_view(),
                dirs.deep_view(),
                other,
            )
            &&& match other {
                Some(path) => r@ == located(env, path) && final(cache).deep_view() == Some(r@),
                None => r@ == name@ && final(cache).deep_view() is None,
            }
        };
    lemma_resolves_once(
        *probe,
        env,
        name@,
        override_value.deep_view(),
        dirs.deep_view(),
        found,
        other,
    );
}

proof fn lemma_resolves_once<F: Fn(&str) -> bool>(
    probe: F,
    env: &ToolEnv,
    name: Seq<char>,
    override_value: Option<Seq<char>>,
    dirs: Seq<Seq<char>>,
    one: Option<Seq<char>>,
    two: Option<Seq<char>>,
)
    requires
        consistent(probe),
        resolves(probe, env, name, override_value, dirs, one),
        resolves(probe, env, name, override_value, dirs, two),
    ensures
        one == two,
{
    let file = name + env.exe_suffix@;
    let on_path = in_each(env.platform, env.path.deep_view(), file);
    let on_dirs = in_each(env.platform, dirs, file);
    if override_value is Some && answers(probe, override_value->0, true) {
        assert(!answers(probe, override_value->0, false));
    } else {
        if first_approved(probe, on_path, one) && first_approved(probe, on_path, two) {
            law_first_approved_is_determined(probe, on_path, one, two);
        }
        if first_approved(probe, on_path, one) && first_approved(probe, on_path, None) {
            law_first_approved_is_determined(probe, on_path, one, None);
        }
        if first_approved(probe, on_path, two) && first_approved(probe, on_path, None) {
            law_first_approved_is_determined(probe, on_path, two, None);
        }
        if first_approved(probe, on_dirs, one) && first_approved(probe, on_dirs, two) {
            law_first_approved_is_determined(probe, on_dirs, one, two);
        }
    }
}

/// A tool that is cached is not looked up.
pub proof fn law_cached_tools_are_returned<F: Fn(&str) -> bool>(
    cache: &mut Option<String>,
    env: &ToolEnv,
    name: &str,
    override_value: &Option<String>,
    dirs: &Vec<String>,
    probe: &F,
    r: String,
)
    requires
        call_ensures(resolved::<F>, (cache, env, name, override_value, dirs, probe), r),
        (*old(cache)) is Some,
    ensures
        r@ == (*old(cache))->0@,
        (*final(cache)) is Some,
        (*final(cache))->0@ == (*old(cache))->0@,
{
}

/// Each tool is looked up under its own name, with its own override, in its own
/// directories.
pub proof fn law_tools_are_told_apart<F: Fn(&str) -> bool>(
    adb_cache: &mut Option<String>,
    scrcpy_cache: &mut Option<String>,
    env: &ToolEnv,
    probe: &F,
    for_adb: String,
    for_scrcpy: String,
)
    requires
        call_ensures(adb::<F>, (adb_cache, env, probe), for_adb),
        call_ensures(scrcpy::<F>, (scrcpy_cache, env, probe), for_scrcpy),
        (*old(adb_cache)) is None,
        (*old(scrcpy_cache)) is None,
    ensures
        looked_up_anew(
            *probe,
            env,
            "adb"@,
            env.adb_path.deep_view(),
            adb_dirs_of(env),
            for_adb@,
            final(adb_cache).deep_view(),
        ),
        looked_up_anew(
            *probe,
            env,
            "scrcpy"@,
            env.scrcpy_path.deep_view(),
            common_bin_dirs_of(env),
            for_scrcpy@,
            final(scrcpy_cache).deep_view(),
        ),
        is_absolute(env.platform, env.working_dir@) ==> is_absolute(env.platform, for_adb@)
            || for_adb@ == "adb"@,
        is_absolute(env.platform, env.working_dir@) ==> is_absolute(env.platform, for_scrcpy@)
            || for_scrcpy@ == "scrcpy"@,
{
}

} // verus!
