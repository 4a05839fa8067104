//! Launching replays in a local Slippi Dolphin install.
//!
//! Slippi plays a replay that a small JSON "comm file" names: Dolphin is run
//! with `-i <comm file> -b`, and with `-e <disc image>` where one is set.
use vstd::prelude::*;
use crate::paths::{
    bare, body, extension, extension_of, file_name, file_name_of, is_verbatim, join, joined,
    last_dot, lemma_bare_is_bare, lemma_child, lemma_name_has_no_slash, name_start,
    names_stand_by_themselves, no_slash, parent, parent_of, PathStyle, Reading,
};
use crate::text::{
    begins_with, blank_text_is_white, chars_of, contains, contains_text, decimal_text, ends_with,
    finishes_with, is_white, lemma_precedes_total, less, opt_text, precedes, push_decimal, same,
    starts_with, str_text, text_holds_its_parts, texts, trim, trimmed,
};

verus! {

broadcast use {vstd::string::group_string_axioms, vstd::utf8::char_is_scalar};

/// Why Slippi was not launched.
#[derive(Debug)]
pub enum SlippiLaunchError {
    /// The game has no replay path.
    NoReplayPath,
    /// The replay is no longer at its path.
    ReplayFileMissing(String),
    /// No binary was found, and none is set.
    NoDefaultForPlatform,
    /// The comm file could not be written.
    CommFileFailed(String),
    /// The process could not be started.
    SpawnFailed(String),
}

impl SlippiLaunchError {
    /// What the user is told.
    pub open spec fn text(self) -> Seq<char> {
        match self {
            SlippiLaunchError::NoReplayPath =>
                "this game was ingested before replay-path tracking — re-ingest to enable Slippi playback"@,
            SlippiLaunchError::ReplayFileMissing(p) => "replay file not found on disk: "@ + p@,
            SlippiLaunchError::NoDefaultForPlatform =>
                "couldn't find Slippi Dolphin automatically — set the playback binary path in Settings"@,
            SlippiLaunchError::CommFileFailed(msg) => "failed to write Slippi comm file: "@ + msg@,
            SlippiLaunchError::SpawnFailed(msg) => "failed to launch Slippi: "@ + msg@,
        }
    }

    /// What the user is told.
    pub fn message(&self) -> (r: String)
        ensures
            r@ == self.text(),
    {
        match self {
            SlippiLaunchError::NoReplayPath =>
                "this game was ingested before replay-path tracking — re-ingest to enable Slippi playback".to_owned(),
            SlippiLaunchError::ReplayFileMissing(p) =>
                "replay file not found on disk: ".to_owned().concat(p.as_str()),
            SlippiLaunchError::NoDefaultForPlatform =>
                "couldn't find Slippi Dolphin automatically — set the playback binary path in Settings".to_owned(),
            SlippiLaunchError::CommFileFailed(msg) =>
                "failed to write Slippi comm file: ".to_owned().concat(msg.as_str()),
            SlippiLaunchError::SpawnFailed(msg) =>
                "failed to launch Slippi: ".to_owned().concat(msg.as_str()),
        }
    }
}

/// A program and its arguments.
#[derive(Debug, Clone, PartialEq, Eq)]
pub struct LaunchPlan {
    pub program: String,
    pub args: Vec<String>,
}

/// The system that the program runs on.
#[derive(Debug, Clone, Copy, PartialEq, Eq, Structural)]
pub enum Platform {
    MacOs,
    Linux,
    Windows,
    Unknown,
}

impl Platform {
    /// How the system writes paths.
    pub open spec fn style(self) -> PathStyle {
        match self {
            Platform::Windows => PathStyle::Windows,
            _ => PathStyle::Unix,
        }
    }

    /// How the system writes paths.
    pub fn path_style(self) -> (r: PathStyle)
        ensures
            r == self.style(),
    {
        match self {
            Platform::Windows => PathStyle::Windows,
            Platform::MacOs | Platform::Linux | Platform::Unknown => PathStyle::Unix,
        }
    }
}

/// A setting without white space around it; one that is blank counts as unset.
pub open spec fn set_text(o: Option<&str>) -> Option<Seq<char>> {
    match o {
        Some(s) => if trimmed(s@).len() > 0 {
            Some(trimmed(s@))
        } else {
            None
        },
        None => None,
    }
}

/// A setting without white space around it; one that is blank counts as unset.
pub fn nonblank(o: Option<&str>) -> (r: Option<&str>)
    ensures
        match r {
            Some(s) => set_text(o) == Some(s@),
            None => set_text(o) is None,
        },
{
    match o {
        Some(s) => {
            let t = trim(s);
            if t.is_empty() {
                None
            } else {
                Some(t)
            }
        },
        None => None,
    }
}

// ----------------------------------------------------------------- app bundles

/// The binary inside the bundle `p`, where `p` names a bundle.
pub open spec fn inner_binary(style: PathStyle, p: Seq<char>) -> Option<Seq<char>> {
    match file_name_of(style, p) {
        Some(name) => if finishes_with(name, ".app"@) {
            Some(
                joined(
                    style,
                    joined(style, joined(style, p, "Contents"@), "MacOS"@),
                    name.take(name.len() - 4),
                ),
            )
        } else {
            None
        },
        None => None,
    }
}

/// The binary `Contents/MacOS/<Name>` inside the bundle `<Name>.app`.
pub fn predict_app_inner_binary(path: &str, style: PathStyle) -> (r: Option<String>)
    ensures
        match r {
            Some(s) => inner_binary(style, path@) == Some(s@),
            None => inner_binary(style, path@) is None,
        },
{
    proof {
        reveal_strlit(".app");
    }
    let name = match file_name(style, path) {
        Some(name) => name,
        None => {
            return None;
        },
    };
    if !ends_with(name, ".app") {
        return None;
    }
    let n: usize = name.unicode_len();
    let app_name = name.substring_char(0, n - 4);
    assert(app_name@ =~= name@.take(name@.len() - 4));
    Some(
        join(
            style,
            join(style, join(style, path, "Contents").as_str(), "MacOS").as_str(),
            app_name,
        ),
    )
}

/// The program that a command stands for: the binary of a bundle, or itself.
pub open spec fn program_of(style: PathStyle, cmd: Seq<char>) -> Seq<char> {
    match inner_binary(style, cmd) {
        Some(inner) => inner,
        None => cmd,
    }
}

/// The program that a command stands for.
pub fn resolve_override_binary(cmd: &str, style: PathStyle) -> (r: String)
    ensures
        r@ == program_of(style, cmd@),
{
    match predict_app_inner_binary(cmd, style) {
        Some(inner) => inner,
        None => cmd.to_owned(),
    }
}

/// The bundle whose inner binary `program` is, by its path on macOS.
pub open spec fn bundle_of(program: Seq<char>) -> Option<Seq<char>> {
    match parent_of(PathStyle::Unix, program) {
        Some(macos) => if file_name_of(PathStyle::Unix, macos) != Some("MacOS"@) {
            None
        } else {
            match parent_of(PathStyle::Unix, macos) {
                Some(contents) => if file_name_of(PathStyle::Unix, contents) != Some("Contents"@) {
                    None
                } else {
                    match parent_of(PathStyle::Unix, contents) {
                        Some(bundle) => if extension_of(PathStyle::Unix, bundle) == Some("app"@) {
                            Some(bundle)
                        } else {
                            None
                        },
                        None => None,
                    }
                },
                None => None,
            }
        },
        None => None,
    }
}

fn is_text(o: Option<&str>, s: &str) -> (r: bool)
    ensures
        r == (o is Some && o->0@ == s@),
{
    match o {
        Some(t) => same(t, s),
        None => false,
    }
}

/// The bundle whose inner binary `program` is, by its path.
pub fn app_bundle_for_inner_binary(program: &str) -> (r: Option<String>)
    ensures
        match r {
            Some(s) => bundle_of(program@) == Some(s@),
            None => bundle_of(program@) is None,
        },
{
    let macos = match parent(PathStyle::Unix, program) {
        Some(p) => p,
        None => {
            return None;
        },
    };
    if !is_text(file_name(PathStyle::Unix, macos), "MacOS") {
        return None;
    }
    let contents = match parent(PathStyle::Unix, macos) {
        Some(p) => p,
        None => {
            return None;
        },
    };
    if !is_text(file_name(PathStyle::Unix, contents), "Contents") {
        return None;
    }
    let bundle = match parent(PathStyle::Unix, contents) {
        Some(p) => p,
        None => {
            return None;
        },
    };
    if is_text(extension(PathStyle::Unix, bundle), "app") {
        Some(bundle.to_owned())
    } else {
        None
    }
}

// -------------------------------------------------------------------- the plan

/// The arguments that play a comm file, with a disc image where one is set.
pub open spec fn play_args(comm: Seq<char>, iso: Option<Seq<char>>) -> Seq<Seq<char>> {
    let base = seq!["-i"@, comm, "-b"@];
    match iso {
        Some(iso) => base.push("-e"@).push(iso),
        None => base,
    }
}

/// The program that is run: what is set wins over what was found.
pub open spec fn chosen_program(
    style: PathStyle,
    set: Option<Seq<char>>,
    found: Option<Seq<char>>,
) -> Option<Seq<char>> {
    match set {
        Some(cmd) => Some(program_of(style, cmd)),
        None => found,
    }
}

/// Whether `r` is the plan to play a replay.
pub open spec fn is_plan(
    r: Result<LaunchPlan, SlippiLaunchError>,
    replay: Seq<char>,
    comm: Seq<char>,
    set: Option<Seq<char>>,
    iso: Option<Seq<char>>,
    found: Option<Seq<char>>,
    style: PathStyle,
) -> bool {
    if replay.len() == 0 {
        r == Err::<LaunchPlan, SlippiLaunchError>(SlippiLaunchError::NoReplayPath)
    } else {
        match chosen_program(style, set, found) {
            Some(program) => r matches Ok(plan) && plan.program@ == program && texts(plan.args@)
                == play_args(comm, iso),
            None => r == Err::<LaunchPlan, SlippiLaunchError>(
                SlippiLaunchError::NoDefaultForPlatform,
            ),
        }
    }
}

/// Plans the playback of a replay, where `resolved_default` is the binary that
/// was found on this machine.
pub fn plan_with_default(
    replay_path: &str,
    comm_file_path: &str,
    override_cmd: Option<&str>,
    iso_path: Option<&str>,
    resolved_default: Option<String>,
    style: PathStyle,
) -> (r: Result<LaunchPlan, SlippiLaunchError>)
    ensures
        is_plan(
            r,
            replay_path@,
            comm_file_path@,
            set_text(override_cmd),
            set_text(iso_path),
            opt_text(resolved_default),
            style,
        ),
{
    if replay_path.is_empty() {
        return Err(SlippiLaunchError::NoReplayPath);
    }
    let program = match nonblank(override_cmd) {
        Some(cmd) => resolve_override_binary(cmd, style),
        None => match resolved_default {
            Some(p) => p,
            None => {
                return Err(SlippiLaunchError::NoDefaultForPlatform);
            },
        },
    };
    let mut args: Vec<String> = Vec::new();
    args.push("-i".to_owned());
    args.push(comm_file_path.to_owned());
    args.push("-b".to_owned());
    match nonblank(iso_path) {
        Some(iso) => {
            args.push("-e".to_owned());
            args.push(iso.to_owned());
        },
        None => {},
    }
    assert(texts(args@) =~= play_args(comm_file_path@, set_text(iso_path)));
    Ok(LaunchPlan { program, args })
}

/// The binary of a standard install, where the platform has one.
pub open spec fn default_binary(platform: Platform) -> Option<Seq<char>> {
    match platform {
        Platform::MacOs => Some("/Applications/Slippi Dolphin.app/Contents/MacOS/Slippi Dolphin"@),
        _ => None,
    }
}

/// The binary of a standard install.
pub fn default_binary_for_platform(platform: Platform) -> (r: Result<String, SlippiLaunchError>)
    ensures
        match r {
            Ok(s) => default_binary(platform) == Some(s@),
            Err(e) => default_binary(platform) is None && e == SlippiLaunchError::NoDefaultForPlatform,
        },
{
    match platform {
        Platform::MacOs => Ok(
            "/Applications/Slippi Dolphin.app/Contents/MacOS/Slippi Dolphin".to_owned(),
        ),
        Platform::Linux | Platform::Windows | Platform::Unknown => Err(
            SlippiLaunchError::NoDefaultForPlatform,
        ),
    }
}

/// Plans the playback of a replay with the platform's standard binary.
pub fn plan_for_platform(
    replay_path: &str,
    comm_file_path: &str,
    override_cmd: Option<&str>,
    iso_path: Option<&str>,
    platform: Platform,
    style: PathStyle,
) -> (r: Result<LaunchPlan, SlippiLaunchError>)
    ensures
        is_plan(
            r,
            replay_path@,
            comm_file_path@,
            set_text(override_cmd),
            set_text(iso_path),
            default_binary(platform),
            style,
        ),
{
    let found = match default_binary_for_platform(platform) {
        Ok(s) => Some(s),
        Err(_) => None,
    };
    plan_with_default(replay_path, comm_file_path, override_cmd, iso_path, found, style)
}

/// Plans the playback of a replay with the binary that was found on this
/// machine.
pub fn plan_launch(
    replay_path: &str,
    comm_file_path: &str,
    override_cmd: Option<&str>,
    iso_path: Option<&str>,
    found: Option<String>,
    style: PathStyle,
) -> (r: Result<LaunchPlan, SlippiLaunchError>)
    ensures
        is_plan(
            r,
            replay_path@,
            comm_file_path@,
            set_text(override_cmd),
            set_text(iso_path),
            opt_text(found),
            style,
        ),
{
    plan_with_default(replay_path, comm_file_path, override_cmd, iso_path, found, style)
}

/// The program and arguments that are spawned for a plan: on macOS a binary
/// inside a bundle is opened through the bundle, so that it comes to the front.
pub open spec fn spawned(
    program: Seq<char>,
    args: Seq<Seq<char>>,
    platform: Platform,
) -> (Seq<char>, Seq<Seq<char>>) {
    match bundle_of(program) {
        Some(bundle) if platform == Platform::MacOs => (
            "open"@,
            seq!["-n"@, "-a"@, bundle, "--args"@] + args,
        ),
        _ => (program, args),
    }
}

/// The program and arguments that are spawned for a plan.
pub fn spawn_plan(plan: LaunchPlan, platform: Platform) -> (r: LaunchPlan)
    ensures
        (r.program@, texts(r.args@)) == spawned(plan.program@, texts(plan.args@), platform),
{
    if platform != Platform::MacOs {
        return plan;
    }
    match app_bundle_for_inner_binary(plan.program.as_str()) {
        Some(bundle) => {
            let mut args: Vec<String> = Vec::new();
            args.push("-n".to_owned());
            args.push("-a".to_owned());
            args.push(bundle);
            args.push("--args".to_owned());
            let ghost head = texts(args@);
            let mut rest = plan.args;
            let ghost tail = rest@;
            args.append(&mut rest);
            assert(texts(args@) =~= head + texts(tail));
            assert(head =~= seq!["-n"@, "-a"@, bundle@, "--args"@]);
            LaunchPlan { program: "open".to_owned(), args }
        },
        None => plan,
    }
}

/// Whether a replay can be handed to Slippi: it has a path, and the file is
/// there.
pub fn preflight(replay_path: &str, present: bool) -> (r: Result<(), SlippiLaunchError>)
    ensures
        r is Ok <==> replay_path@.len() > 0 && present,
        r matches Err(e) ==> (match e {
            SlippiLaunchError::NoReplayPath => replay_path@.len() == 0,
            SlippiLaunchError::ReplayFileMissing(p) => replay_path@.len() > 0 && p@ == replay_path@,
            _ => false,
        }),
{
    if replay_path.is_empty() {
        return Err(SlippiLaunchError::NoReplayPath);
    }
    if !present {
        return Err(SlippiLaunchError::ReplayFileMissing(replay_path.to_owned()));
    }
    Ok(())
}

/// Whether `r` is what is spawned to play a replay that is there, with a comm
/// file that was written.
pub open spec fn is_launch(
    r: Result<LaunchPlan, SlippiLaunchError>,
    replay: Seq<char>,
    comm: Seq<char>,
    set: Option<Seq<char>>,
    iso: Option<Seq<char>>,
    found: Option<Seq<char>>,
    platform: Platform,
) -> bool {
    match chosen_program(platform.style(), set, found) {
        Some(program) => r matches Ok(plan) && (plan.program@, texts(plan.args@)) == spawned(
            program,
            play_args(comm, iso),
            platform,
        ),
        None => r == Err::<LaunchPlan, SlippiLaunchError>(SlippiLaunchError::NoDefaultForPlatform),
    }
}

/// What is spawned to play a replay. `present` says whether the replay is there,
/// `comm` is the comm file that was written for it, or why it was not, and
/// `found` the binary that was found on this machine.
pub fn launch_replay(
    replay_path: &str,
    present: bool,
    comm: Result<String, SlippiLaunchError>,
    override_cmd: Option<&str>,
    iso_path: Option<&str>,
    found: Option<String>,
    platform: Platform,
) -> (r: Result<LaunchPlan, SlippiLaunchError>)
    ensures
        if replay_path@.len() == 0 {
            r == Err::<LaunchPlan, SlippiLaunchError>(SlippiLaunchError::NoReplayPath)
        } else if !present {
            r matches Err(SlippiLaunchError::ReplayFileMissing(p)) && p@ == replay_path@
        } else {
            match comm {
                Err(e) => r == Err::<LaunchPlan, SlippiLaunchError>(e),
                Ok(c) => is_launch(
                    r,
                    replay_path@,
                    c@,
                    set_text(override_cmd),
                    set_text(iso_path),
                    opt_text(found),
                    platform,
                ),
            }
        },
{
    match preflight(replay_path, present) {
        Ok(_) => {},
        Err(e) => {
            return Err(e);
        },
    }
    let comm_file = match comm {
        Ok(c) => c,
        Err(e) => {
            return Err(e);
        },
    };
    match plan_launch(
        replay_path,
        comm_file.as_str(),
        override_cmd,
        iso_path,
        found,
        platform.path_style(),
    ) {
        Ok(plan) => Ok(spawn_plan(plan, platform)),
        Err(e) => Err(e),
    }
}

// ------------------------------------------------------------------- discovery

/// The bundles that may hold Dolphin on macOS, best first.
pub open spec fn macos_candidates(home: Option<Seq<char>>) -> Seq<Seq<char>> {
    let applications = "/Applications/Slippi Dolphin.app"@;
    match home {
        Some(home) => {
            let base = joined(PathStyle::Unix, home, "Library/Application Support/Slippi Launcher"@);
            seq![
                joined(PathStyle::Unix, base, "playback/Slippi Dolphin.app"@),
                joined(PathStyle::Unix, base, "netplay/Slippi Dolphin.app"@),
                applications,
            ]
        },
        None => seq![applications],
    }
}

/// The bundles that may hold Dolphin on macOS, best first. `home` is the
/// user's home directory.
pub fn macos_default_candidates(home: Option<&str>) -> (r: Vec<String>)
    ensures
        texts(r@) == macos_candidates(str_text(home)),
{
    let mut out: Vec<String> = Vec::new();
    match home {
        Some(home) => {
            let base = join(PathStyle::Unix, home, "Library/Application Support/Slippi Launcher");
            out.push(join(PathStyle::Unix, base.as_str(), "playback/Slippi Dolphin.app"));
            out.push(join(PathStyle::Unix, base.as_str(), "netplay/Slippi Dolphin.app"));
        },
        None => {},
    }
    out.push("/Applications/Slippi Dolphin.app".to_owned());
    assert(texts(out@) =~= macos_candidates(str_text(home)));
    out
}

/// The binaries that may be Dolphin on Windows, best first.
pub open spec fn windows_candidates(appdata: Option<Seq<char>>) -> Seq<Seq<char>> {
    match appdata {
        Some(appdata) => {
            let base = joined(PathStyle::Windows, appdata, "Slippi Launcher"@);
            seq![
                joined(PathStyle::Windows, joined(PathStyle::Windows, base, "playback"@), "Slippi Dolphin.exe"@),
                joined(PathStyle::Windows, joined(PathStyle::Windows, base, "netplay"@), "Slippi Dolphin.exe"@),
            ]
        },
        None => seq![],
    }
}

/// The binaries that may be Dolphin on Windows, best first. `appdata` is the
/// user's roaming application data directory.
pub fn windows_default_candidates(appdata: Option<&str>) -> (r: Vec<String>)
    ensures
        texts(r@) == windows_candidates(str_text(appdata)),
{
    let mut out: Vec<String> = Vec::new();
    match appdata {
        Some(appdata) => {
            let base = join(PathStyle::Windows, appdata, "Slippi Launcher");
            out.push(
                join(PathStyle::Windows, join(PathStyle::Windows, base.as_str(), "playback").as_str(), "Slippi Dolphin.exe"),
            );
            out.push(
                join(PathStyle::Windows, join(PathStyle::Windows, base.as_str(), "netplay").as_str(), "Slippi Dolphin.exe"),
            );
        },
        None => {},
    }
    assert(texts(out@) =~= windows_candidates(str_text(appdata)));
    out
}

/// The directories that may hold Dolphin on Linux, best first.
pub open spec fn linux_dirs(xdg: Option<Seq<char>>, home: Option<Seq<char>>) -> Seq<Seq<char>> {
    let config = match (xdg, home) {
        (Some(x), _) => Some(x),
        (None, Some(h)) => Some(joined(PathStyle::Unix, h, ".config"@)),
        (None, None) => None,
    };
    match config {
        Some(c) => {
            let root = joined(PathStyle::Unix, c, "Slippi Launcher"@);
            seq![joined(PathStyle::Unix, root, "playback"@), joined(PathStyle::Unix, root, "netplay"@)]
        },
        None => seq![],
    }
}

/// The directories that may hold Dolphin on Linux, best first. `xdg` is the
/// configuration directory that is set, if one is, and `home` the user's home
/// directory.
pub fn linux_dolphin_dirs(xdg: Option<&str>, home: Option<&str>) -> (r: Vec<String>)
    ensures
        texts(r@) == linux_dirs(set_text(xdg), str_text(home)),
{
    let mut out: Vec<String> = Vec::new();
    let config = match nonblank(xdg) {
        Some(x) => x.to_owned(),
        None => match home {
            Some(h) => join(PathStyle::Unix, h, ".config"),
            None => {
                assert(texts(out@) =~= linux_dirs(set_text(xdg), str_text(home)));
                return out;
            },
        },
    };
    let root = join(PathStyle::Unix, config.as_str(), "Slippi Launcher");
    out.push(join(PathStyle::Unix, root.as_str(), "playback"));
    out.push(join(PathStyle::Unix, root.as_str(), "netplay"));
    assert(texts(out@) =~= linux_dirs(set_text(xdg), str_text(home)));
    out
}

/// A character with a capital of `A` to `Z` made small.
pub open spec fn small(c: char) -> char {
    if 65 <= c as u32 <= 90 {
        ((c as u32 + 32) as u8) as char
    } else {
        c
    }
}

/// Whether two texts are equal but for the case of `A` to `Z`.
pub open spec fn same_but_case(a: Seq<char>, b: Seq<char>) -> bool {
    a.len() == b.len() && forall|i: int| 0 <= i < a.len() ==> small(#[trigger] a[i]) == small(b[i])
}

fn lower(c: char) -> (r: char)
    ensures
        r == small(c),
{
    let n: u32 = c as u32;
    if 65 <= n && n <= 90 {
        ((n + 32) as u8) as char
    } else {
        c
    }
}

fn eq_but_case(a: &str, b: &str) -> (r: bool)
    ensures
        r == same_but_case(a@, b@),
{
    let x = chars_of(a);
    let y = chars_of(b);
    if x.len() != y.len() {
        return false;
    }
    let mut i: usize = 0;
    while i < x.len()
        invariant
            x@ == a@,
            y@ == b@,
            x.len() == y.len(),
            i <= x.len(),
            forall|k: int| 0 <= k < i ==> small(#[trigger] a@[k]) == small(b@[k]),
        decreases x.len() - i,
    {
        if lower(x[i]) != lower(y[i]) {
            assert(small(a@[i as int]) != small(b@[i as int]));
            return false;
        }
        i += 1;
    }
    true
}

/// Whether a file name is that of an AppImage.
pub open spec fn is_appimage(name: Seq<char>) -> bool {
    match extension_of(PathStyle::Unix, name) {
        Some(e) => same_but_case(e, "AppImage"@),
        None => false,
    }
}

/// Whether `name` is the least name of an AppImage among `names`.
pub open spec fn is_first_appimage(names: Seq<Seq<char>>, name: Seq<char>) -> bool {
    &&& names.contains(name)
    &&& is_appimage(name)
    &&& forall|i: int|
        0 <= i < names.len() && is_appimage(#[trigger] names[i]) ==> !precedes(names[i], name)
}

/// The first AppImage, by name, among the files of a directory.
pub fn first_appimage_in(dir: &str, names: &Vec<String>) -> (r: Option<String>)
    ensures
        match r {
            Some(path) => exists|name: Seq<char>|
                #[trigger] is_first_appimage(texts(names@), name) && path@ == joined(
                    PathStyle::Unix,
                    dir@,
                    name,
                ),
            None => forall|i: int|
                0 <= i < names.len() ==> !is_appimage(#[trigger] texts(names@)[i]),
        },
{
    let ghost all = texts(names@);
    let mut best: Option<usize> = None;
    let mut i: usize = 0;
    while i < names.len()
        invariant
            all == texts(names@),
            i <= names.len(),
            match best {
                Some(b) => b < i && is_appimage(all[b as int]) && forall|k: int|
                    0 <= k < i && is_appimage(#[trigger] all[k]) ==> !precedes(all[k], all[b as int]),
                None => forall|k: int| 0 <= k < i ==> !is_appimage(#[trigger] all[k]),
            },
        decreases names.len() - i,
    {
        let name = names[i].as_str();
        assert(name@ == all[i as int]);
        let hit: bool = match extension(PathStyle::Unix, name) {
            Some(e) => eq_but_case(e, "AppImage"),
            None => false,
        };
        if hit {
            match best {
                Some(b) => {
                    if less(name, names[b].as_str()) {
                        proof {
                            assert forall|k: int|
                                0 <= k < i && is_appimage(#[trigger] all[k]) implies !precedes(
                                all[k],
                                all[i as int],
                            ) by {
                                if precedes(all[k], all[i as int]) {
                                    crate::text::lemma_precedes_transitive(
                                        all[k],
                                        all[i as int],
                                        all[b as int],
                                    );
                                }
                            }
                            crate::text::lemma_precedes_irreflexive(all[i as int]);
                        }
                        best = Some(i);
                    }
                },
                None => {
                    proof {
                        crate::text::lemma_precedes_irreflexive(all[i as int]);
                    }
                    best = Some(i);
                },
            }
        }
        i += 1;
    }
    match best {
        Some(b) => {
            assert(all.contains(all[b as int]));
            assert(is_first_appimage(all, all[b as int]));
            Some(join(PathStyle::Unix, dir, names[b].as_str()))
        },
        None => None,
    }
}

/// Where the first line of a text ends.
pub open spec fn line_end(s: Seq<char>) -> int
    decreases s.len(),
{
    if s.len() == 0 || s[0] == '\n' {
        0
    } else {
        1 + line_end(s.drop_first())
    }
}

/// The first line of a text that `wanted` accepts, without white space around
/// it.
pub open spec fn first_line(s: Seq<char>, wanted: spec_fn(Seq<char>) -> bool) -> Option<Seq<char>>
    decreases s.len(),
{
    if s.len() == 0 {
        None
    } else {
        let k = line_end(s);
        let line = trimmed(s.take(k));
        if wanted(line) {
            Some(line)
        } else if 0 <= k < s.len() {
            first_line(s.skip(k + 1), wanted)
        } else {
            None
        }
    }
}

/// Whether a search hit can be used: one on a mounted volume cannot.
pub open spec fn usable(line: Seq<char>) -> bool {
    line.len() > 0 && !begins_with(line, "/Volumes/"@)
}

pub open spec fn playback_hit(line: Seq<char>) -> bool {
    usable(line) && contains_text(line, "/playback/"@)
}

pub open spec fn netplay_hit(line: Seq<char>) -> bool {
    usable(line) && !contains_text(line, "/playback/"@) && contains_text(line, "/netplay/"@)
}

pub open spec fn other_hit(line: Seq<char>) -> bool {
    usable(line) && !contains_text(line, "/playback/"@) && !contains_text(line, "/netplay/"@)
}

/// The first of the given, where there is one.
pub open spec fn first_some(
    a: Option<Seq<char>>,
    b: Option<Seq<char>>,
    c: Option<Seq<char>>,
) -> Option<Seq<char>> {
    if a is Some {
        a
    } else if b is Some {
        b
    } else {
        c
    }
}

/// The hit that is used: the playback build, else the netplay build, else any.
pub open spec fn best_hit(s: Seq<char>) -> Option<Seq<char>> {
    first_some(
        first_line(s, |l: Seq<char>| playback_hit(l)),
        first_line(s, |l: Seq<char>| netplay_hit(l)),
        first_line(s, |l: Seq<char>| other_hit(l)),
    )
}

/// The bundle to use among the lines that a search printed.
pub fn parse_mdfind_output(stdout: &str) -> (r: Option<String>)
    ensures
        opt_text(r) == best_hit(stdout@),
{
    let v = chars_of(stdout);
    let ghost s = stdout@;
    let mut playback: Option<String> = None;
    let mut netplay: Option<String> = None;
    let mut other: Option<String> = None;
    let mut i: usize = 0;
    assert(s.skip(0) =~= s);
    while i < v.len()
        invariant
            v@ == s,
            s == stdout@,
            i <= v.len(),
            first_line(s, |l: Seq<char>| playback_hit(l)) == (if playback is Some {
                opt_text(playback)
            } else {
                first_line(s.skip(i as int), |l: Seq<char>| playback_hit(l))
            }),
            first_line(s, |l: Seq<char>| netplay_hit(l)) == (if netplay is Some {
                opt_text(netplay)
            } else {
                first_line(s.skip(i as int), |l: Seq<char>| netplay_hit(l))
            }),
            first_line(s, |l: Seq<char>| other_hit(l)) == (if other is Some {
                opt_text(other)
            } else {
                first_line(s.skip(i as int), |l: Seq<char>| other_hit(l))
            }),
        decreases v.len() - i,
    {
        let mut j: usize = i;
        assert(s.skip(i as int) =~= s.skip(j as int));
        while j < v.len() && v[j] != '\n'
            invariant
                v@ == s,
                i <= j <= v.len(),
                line_end(s.skip(i as int)) == j - i + line_end(s.skip(j as int)),
            decreases v.len() - j,
        {
            assert(s.skip(j as int).drop_first() =~= s.skip(j + 1));
            j += 1;
        }
        let line = trim(stdout.substring_char(i, j));
        proof {
            assert(s.skip(i as int).take(j - i) =~= s.subrange(i as int, j as int));
            if j < v.len() {
                assert(s.skip(i as int).skip(j - i + 1) =~= s.skip(j + 1));
            } else {
                assert(s.skip(j as int) =~= Seq::<char>::empty());
            }
        }
        if !line.is_empty() && !starts_with(line, "/Volumes/") {
            if contains(line, "/playback/") {
                if playback.is_none() {
                    playback = Some(line.to_owned());
                }
            } else if contains(line, "/netplay/") {
                if netplay.is_none() {
                    netplay = Some(line.to_owned());
                }
            } else {
                if other.is_none() {
                    other = Some(line.to_owned());
                }
            }
        }
        if j < v.len() {
            i = j + 1;
        } else {
            i = j;
        }
    }
    if playback.is_some() {
        playback
    } else if netplay.is_some() {
        netplay
    } else {
        other
    }
}

// --------------------------------------------------------------- the comm file

pub open spec fn hex_digit(d: int) -> char {
    if d < 10 {
        (48 + d) as u8 as char
    } else {
        (87 + d) as u8 as char
    }
}

/// A character as it stands inside a JSON string.
pub open spec fn escaped_char(c: char) -> Seq<char> {
    if c == '"' {
        seq!['\\', '"']
    } else if c == '\\' {
        seq!['\\', '\\']
    } else if c == '\n' {
        seq!['\\', 'n']
    } else if c == '\r' {
        seq!['\\', 'r']
    } else if c == '\t' {
        seq!['\\', 't']
    } else if (c as u32) < 0x20 {
        seq!['\\', 'u', '0', '0', hex_digit(c as u32 as int / 16), hex_digit(c as u32 as int % 16)]
    } else {
        seq![c]
    }
}

/// Text as it stands inside a JSON string.
pub open spec fn escaped(s: Seq<char>) -> Seq<char>
    decreases s.len(),
{
    if s.len() == 0 {
        seq![]
    } else {
        escaped_char(s[0]) + escaped(s.drop_first())
    }
}

/// Text as a JSON string.
pub open spec fn quoted(s: Seq<char>) -> Seq<char> {
    seq!['"'] + escaped(s) + seq!['"']
}

fn hex(d: u8) -> (c: char)
    requires
        d < 16,
    ensures
        c == hex_digit(d as int),
{
    if d < 10 {
        (48 + d) as char
    } else {
        (87 + d) as char
    }
}

/// Text as a JSON string.
pub fn json_string_escape(s: &str) -> (r: String)
    ensures
        r@ == quoted(s@),
{
    let v = chars_of(s);
    let mut out = String::new();
    out.push('"');
    let mut i: usize = 0;
    assert(s@.skip(0) =~= s@);
    while i < v.len()
        invariant
            v@ == s@,
            i <= v.len(),
            out@ + escaped(s@.skip(i as int)) == seq!['"'] + escaped(s@),
        decreases v.len() - i,
    {
        let c: char = v[i];
        let ghost before = out@;
        let code: u32 = c as u32;
        if c == '"' {
            out.push('\\');
            out.push('"');
        } else if c == '\\' {
            out.push('\\');
            out.push('\\');
        } else if c == '\n' {
            out.push('\\');
            out.push('n');
        } else if c == '\r' {
            out.push('\\');
            out.push('r');
        } else if c == '\t' {
            out.push('\\');
            out.push('t');
        } else if code < 0x20 {
            out.push('\\');
            out.push('u');
            out.push('0');
            out.push('0');
            out.push(hex((code / 16) as u8));
            out.push(hex((code % 16) as u8));
        } else {
            out.push(c);
        }
        proof {
            assert(out@ =~= before + escaped_char(c));
            assert(s@.skip(i as int)[0] == c);
            assert(s@.skip(i as int).drop_first() =~= s@.skip(i + 1));
            assert(out@ + escaped(s@.skip(i + 1)) =~= before + escaped(s@.skip(i as int)));
        }
        i += 1;
    }
    assert(s@.skip(i as int) =~= Seq::<char>::empty());
    assert(out@ =~= seq!['"'] + escaped(s@));
    out.push('"');
    assert(out@ =~= quoted(s@));
    out
}

/// The comm file that plays one replay.
pub open spec fn comm_json(replay: Seq<char>) -> Seq<char> {
    "{\"mode\":\"normal\",\"replay\":"@ + quoted(replay)
        + ",\"isRealTimeMode\":false,\"outputOverlayFiles\":false}"@
}

/// The comm file that plays one replay.
pub fn build_comm_json(replay_path: &str) -> (r: String)
    ensures
        r@ == comm_json(replay_path@),
{
    let mut out = "{\"mode\":\"normal\",\"replay\":".to_owned();
    out.append(json_string_escape(replay_path).as_str());
    out.append(",\"isRealTimeMode\":false,\"outputOverlayFiles\":false}");
    out
}

/// The name of the comm file that is written at an instant.
pub fn comm_file_name(nanos: u128) -> (r: String)
    ensures
        r@ == "stats-melee-slippi-"@ + decimal_text(nanos as nat) + ".json"@,
{
    let mut out = "stats-melee-slippi-".to_owned();
    push_decimal(&mut out, nanos);
    out.append(".json");
    out
}

/// The error for a comm file that could not be written.
pub fn comm_file_failed(path: &str, reason: &str) -> (e: SlippiLaunchError)
    ensures
        e matches SlippiLaunchError::CommFileFailed(msg) && msg@ == path@ + ": "@ + reason@,
{
    let mut msg = path.to_owned();
    msg.append(": ");
    msg.append(reason);
    SlippiLaunchError::CommFileFailed(msg)
}

// ------------------------------------------------------------------------ laws

/// A blank setting acts like one that is not there.
pub proof fn blank_settings_are_unset(blank: &str)
    requires
        trimmed(blank@).len() == 0,
    ensures
        set_text(Some(blank)) == set_text(None),
{
}

/// A command that is set decides alone: what was found on the machine plays no
/// part.
pub proof fn set_command_wins(
    r: Result<LaunchPlan, SlippiLaunchError>,
    replay: Seq<char>,
    comm: Seq<char>,
    cmd: Seq<char>,
    iso: Option<Seq<char>>,
    found: Option<Seq<char>>,
    style: PathStyle,
)
    ensures
        is_plan(r, replay, comm, Some(cmd), iso, found, style) == is_plan(
            r,
            replay,
            comm,
            Some(cmd),
            iso,
            None,
            style,
        ),
{
}

/// The bundle of a bundle's inner binary is the bundle, without what says
/// nothing at the end of its path. The name is more than `.app` and `..app`.
pub proof fn bundle_of_inner_binary(p: Seq<char>)
    requires
        file_name_of(PathStyle::Unix, p) matches Some(name) && finishes_with(name, ".app"@)
            && name.len() > 4 && name.take(name.len() - 4) != "."@,
    ensures
        inner_binary(PathStyle::Unix, p) matches Some(inner) && bundle_of(inner) == Some(
            bare(Reading::Unix, p),
        ),
{
    let name = file_name_of(PathStyle::Unix, p)->0;
    let stem = name.take(name.len() - 4);
    reveal_strlit(".app");
    reveal_strlit("app");
    reveal_strlit("Contents");
    reveal_strlit("MacOS");
    reveal_strlit(".");
    reveal_strlit("..");
    let bundle = bare(Reading::Unix, p);
    assert(body(PathStyle::Unix, p) =~= p);
    assert(body(PathStyle::Unix, bundle) =~= bundle);
    lemma_name_has_no_slash(bundle);
    lemma_bare_is_bare(Reading::Unix, p);
    assert(bundle.skip(name_start(Reading::Unix, bundle)) == name);
    let app = name.subrange(name.len() - 4, name.len() as int);
    assert(app == ".app"@);
    assert(name[name.len() - 4] == app[0] && name[name.len() - 3] == app[1] && name[name.len() - 2]
        == app[2] && name[name.len() - 1] == app[3]);
    assert(no_slash(stem)) by {
        assert forall|i: int| 0 <= i < stem.len() implies #[trigger] stem[i] != '/' by {
            assert(name[i] != '/');
        }
    }
    let base = if p.last() == '/' {
        p.drop_last()
    } else {
        p
    };
    assert(p.last() == '/' ==> base.push('/') =~= p);
    let contents = base.push('/') + "Contents"@;
    let macos = contents.push('/') + "MacOS"@;
    let inner = macos.push('/') + stem;
    assert(no_slash("Contents"@));
    assert(no_slash("MacOS"@));
    assert(joined(PathStyle::Unix, p, "Contents"@) == contents);
    assert(joined(PathStyle::Unix, contents, "MacOS"@) == macos);
    assert(stem[0] != '/');
    assert(joined(PathStyle::Unix, macos, stem) == inner);
    assert(inner_binary(PathStyle::Unix, p) == Some(inner));
    assert(bare(Reading::Unix, contents) == contents);
    assert(bare(Reading::Unix, macos) == macos);
    lemma_child(base, "Contents"@);
    lemma_child(contents, "MacOS"@);
    lemma_child(macos, stem);
    lemma_last_dot_of_app(name);
    assert(name.skip(name.len() - 3) =~= "app"@);
}

proof fn lemma_last_dot_of_app(name: Seq<char>)
    requires
        name.len() >= 4,
        name[name.len() - 4] == '.',
        name[name.len() - 3] == 'a',
        name[name.len() - 2] == 'p',
        name[name.len() - 1] == 'p',
    ensures
        last_dot(name) == name.len() - 4,
{
    reveal_with_fuel(last_dot, 5);
    let a = name.drop_last();
    let b = a.drop_last();
    let c = b.drop_last();
    assert(a.last() == 'p' && b.last() == 'a' && c.last() == '.');
}

proof fn lemma_first_line_is_wanted(s: Seq<char>, wanted: spec_fn(Seq<char>) -> bool)
    ensures
        first_line(s, wanted) matches Some(l) ==> wanted(l),
    decreases s.len(),
{
    let k = line_end(s);
    if s.len() > 0 && 0 <= k < s.len() {
        lemma_first_line_is_wanted(s.skip(k + 1), wanted);
    }
}

/// The bundle that is used never lies on a mounted volume, and it is a playback
/// build wherever the search found a usable one.
pub proof fn best_hit_is_usable(s: Seq<char>)
    ensures
        best_hit(s) matches Some(l) ==> l.len() > 0 && !begins_with(l, "/Volumes/"@),
        first_line(s, |l: Seq<char>| playback_hit(l)) is Some ==> (best_hit(s) matches Some(l)
            && contains_text(l, "/playback/"@)),
{
    lemma_first_line_is_wanted(s, |l: Seq<char>| playback_hit(l));
    lemma_first_line_is_wanted(s, |l: Seq<char>| netplay_hit(l));
    lemma_first_line_is_wanted(s, |l: Seq<char>| other_hit(l));
}

pub open spec fn hex_value(c: char) -> Option<int> {
    let n = c as u32;
    if 48 <= n <= 57 {
        Some(n - 48)
    } else if 97 <= n <= 102 {
        Some(n - 87)
    } else if 65 <= n <= 70 {
        Some(n - 55)
    } else {
        None
    }
}

/// The text that the inside of a JSON string stands for, where it is well
/// formed: no bare quote, no bare control character, no unknown escape. Of the
/// `\u` escapes it knows those below 256.
pub open spec fn unescaped(s: Seq<char>) -> Option<Seq<char>>
    decreases s.len(),
{
    if s.len() == 0 {
        Some(seq![])
    } else if s[0] == '"' || (s[0] as u32) < 0x20 {
        None
    } else if s[0] != '\\' {
        match unescaped(s.drop_first()) {
            Some(rest) => Some(seq![s[0]] + rest),
            None => None,
        }
    } else if s.len() < 2 {
        None
    } else if s[1] == 'u' {
        if s.len() < 6 || s[2] != '0' || s[3] != '0' {
            None
        } else {
            match (hex_value(s[4]), hex_value(s[5]), unescaped(s.skip(6))) {
                (Some(a), Some(b), Some(rest)) => Some(seq![(a * 16 + b) as u8 as char] + rest),
                _ => None,
            }
        }
    } else {
        let c = if s[1] == '"' || s[1] == '\\' || s[1] == '/' {
            Some(s[1])
        } else if s[1] == 'n' {
            Some('\n')
        } else if s[1] == 'r' {
            Some('\r')
        } else if s[1] == 't' {
            Some('\t')
        } else {
            None
        };
        match (c, unescaped(s.skip(2))) {
            (Some(c), Some(rest)) => Some(seq![c] + rest),
            _ => None,
        }
    }
}

/// The string that is written for a path is well formed and stands for that
/// path.
pub proof fn escaping_reads_back(s: Seq<char>)
    ensures
        unescaped(escaped(s)) == Some(s),
    decreases s.len(),
{
    if s.len() == 0 {
        assert(s =~= Seq::<char>::empty());
    } else {
        let c = s[0];
        let rest = escaped(s.drop_first());
        let e = escaped_char(c);
        let all = e + rest;
        escaping_reads_back(s.drop_first());
        assert(s =~= seq![c] + s.drop_first());
        assert(escaped(s) == all);
        if e.len() == 1 {
            assert(all.drop_first() =~= rest);
            assert(all[0] == c);
        } else if e.len() == 2 {
            assert(all.skip(2) =~= rest);
            assert(all[0] == e[0] && all[1] == e[1]);
        } else {
            assert(all.skip(6) =~= rest);
            assert(all[0] == e[0] && all[1] == e[1] && all[2] == e[2] && all[3] == e[3] && all[4]
                == e[4] && all[5] == e[5]);
            let n = c as u32;
            vstd::utf8::char_u32_cast(c, n);
            assert(hex_value(hex_digit(n as int / 16)) == Some(n as int / 16));
            assert(hex_value(hex_digit(n as int % 16)) == Some(n as int % 16));
            assert(((n as int / 16) * 16 + n as int % 16) as u8 as char == c);
        }
    }
}

/// A setting counts exactly where it has something other than white space, and
/// counts without the white space around it.
pub proof fn settings_count_where_not_blank(s: &str)
    ensures
        set_text(Some(s)) is Some <==> exists|k: int| 0 <= k < s@.len() && !is_white(#[trigger] s@[k]),
        set_text(Some(s)) matches Some(t) ==> t == trimmed(s@),
        set_text(None) is None,
{
    blank_text_is_white(s@);
}

/// What is handed to Dolphin depends on the comm file and the disc image alone:
/// not on the replay's own path, nor on which program is run and how it came to
/// be chosen.
pub proof fn arguments_do_not_depend_on_the_program(
    a: Result<LaunchPlan, SlippiLaunchError>,
    b: Result<LaunchPlan, SlippiLaunchError>,
    comm: Seq<char>,
    iso: Option<Seq<char>>,
    replays: (Seq<char>, Seq<char>),
    sets: (Option<Seq<char>>, Option<Seq<char>>),
    founds: (Option<Seq<char>>, Option<Seq<char>>),
    styles: (PathStyle, PathStyle),
)
    requires
        is_plan(a, replays.0, comm, sets.0, iso, founds.0, styles.0),
        is_plan(b, replays.1, comm, sets.1, iso, founds.1, styles.1),
        a is Ok,
        b is Ok,
    ensures
        texts(a->Ok_0.args@) == texts(b->Ok_0.args@),
{
}

/// The arguments of a plan: `-i`, the comm file and `-b`; then, where a disc
/// image is set, and only there, `-e` and the disc image as the last two.
pub proof fn plans_hand_over_the_disc_image(
    r: Result<LaunchPlan, SlippiLaunchError>,
    replay: Seq<char>,
    comm: Seq<char>,
    set: Option<Seq<char>>,
    iso: Option<Seq<char>>,
    found: Option<Seq<char>>,
    style: PathStyle,
)
    requires
        is_plan(r, replay, comm, set, iso, found, style),
        r is Ok,
    ensures
        ({
            let args = r->Ok_0.args@;
            &&& args.len() >= 3
            &&& args[0]@ == "-i"@
            &&& args[1]@ == comm
            &&& args[2]@ == "-b"@
            &&& iso is None ==> args.len() == 3
            &&& iso is Some ==> args.len() == 5 && args[args.len() - 2]@ == "-e"@ && args.last()@
                == iso->0
        }),
{
    let args = r->Ok_0.args@;
    let want = play_args(comm, iso);
    assert(texts(args) == want);
    assert forall|i: int| 0 <= i < args.len() implies (#[trigger] args[i])@ == want[i] by {
        assert(texts(args)[i] == args[i]@);
    }
}

/// A plan is made exactly where the replay has a path and there is a program: a
/// command that is set, or one that was found. Otherwise the reason is told.
pub proof fn plans_need_a_path_and_a_program(
    r: Result<LaunchPlan, SlippiLaunchError>,
    replay: Seq<char>,
    comm: Seq<char>,
    set: Option<Seq<char>>,
    iso: Option<Seq<char>>,
    found: Option<Seq<char>>,
    style: PathStyle,
)
    requires
        is_plan(r, replay, comm, set, iso, found, style),
    ensures
        r is Ok <==> replay.len() > 0 && (set is Some || found is Some),
        replay.len() == 0 <==> r matches Err(SlippiLaunchError::NoReplayPath),
        r is Err && replay.len() > 0 ==> r->Err_0 == SlippiLaunchError::NoDefaultForPlatform,
{
}

/// A command that is set and names no bundle is run as it is; one that names a
/// bundle is run by a binary inside it; and without a command, what was found
/// is run as it is.
pub proof fn plans_run_what_is_set(
    r: Result<LaunchPlan, SlippiLaunchError>,
    replay: Seq<char>,
    comm: Seq<char>,
    set: Option<Seq<char>>,
    iso: Option<Seq<char>>,
    found: Option<Seq<char>>,
    style: PathStyle,
)
    requires
        is_plan(r, replay, comm, set, iso, found, style),
        r is Ok,
    ensures
        set is None ==> Some(r->Ok_0.program@) == found,
        set is Some && (file_name_of(style, set->0) matches Some(name) ==> !finishes_with(
            name,
            ".app"@,
        )) ==> r->Ok_0.program@ == set->0,
        set is Some && (file_name_of(style, set->0) matches Some(name) && finishes_with(
            name,
            ".app"@,
        )) ==> Some(r->Ok_0.program@) == inner_binary(style, set->0),
{
}

/// The arguments of a plan are the last arguments of what is spawned for it,
/// and off macOS all of it is spawned as planned.
pub proof fn spawning_keeps_the_arguments(
    program: Seq<char>,
    args: Seq<Seq<char>>,
    platform: Platform,
)
    ensures
        ({
            let (p, a) = spawned(program, args, platform);
            &&& a.len() >= args.len() && a.skip(a.len() - args.len()) == args
            &&& platform != Platform::MacOs ==> p == program && a == args
            &&& bundle_of(program) is None ==> p == program && a == args
            &&& platform == Platform::MacOs && bundle_of(program) is Some ==> p == "open"@
                && a.len() == args.len() + 4 && a[0] == "-n"@ && a[1] == "-a"@ && a[2] == bundle_of(
                program,
            )->0 && a[3] == "--args"@
        }),
{
    let (p, a) = spawned(program, args, platform);
    assert(a.skip(a.len() - args.len()) =~= args);
}

/// However Dolphin is started, the disc image that is set reaches it: `-e` and
/// the disc image are the last two arguments. Without one no argument is `-e`.
pub proof fn launches_hand_over_the_disc_image(
    r: Result<LaunchPlan, SlippiLaunchError>,
    replay: Seq<char>,
    comm: Seq<char>,
    set: Option<Seq<char>>,
    iso: Option<Seq<char>>,
    found: Option<Seq<char>>,
    platform: Platform,
)
    requires
        is_launch(r, replay, comm, set, iso, found, platform),
    ensures
        r is Ok <==> set is Some || found is Some,
        r is Ok && iso is Some ==> r->Ok_0.args@.len() >= 5 && r->Ok_0.args@[r->Ok_0.args@.len() - 2]@
            == "-e"@ && r->Ok_0.args@.last()@ == iso->0 && r->Ok_0.args@[r->Ok_0.args@.len() - 5]@
            == "-i"@ && r->Ok_0.args@[r->Ok_0.args@.len() - 4]@ == comm,
        r is Ok && iso is None ==> r->Ok_0.args@.len() >= 3 && r->Ok_0.args@.last()@ == "-b"@
            && r->Ok_0.args@[r->Ok_0.args@.len() - 3]@ == "-i"@ && r->Ok_0.args@[r->Ok_0.args@.len()
            - 2]@ == comm,
{
    if r is Ok {
        let args = r->Ok_0.args@;
        let program = chosen_program(platform.style(), set, found)->0;
        let want = play_args(comm, iso);
        spawning_keeps_the_arguments(program, want, platform);
        let all = texts(args);
        let n = all.len() - want.len();
        assert(all.skip(n) == want);
        assert forall|i: int| 0 <= i < want.len() implies (#[trigger] args[n + i])@ == want[i] by {
            assert(all.skip(n)[i] == all[n + i]);
            assert(all[n + i] == args[n + i]@);
        }
        assert(args[n]@ == want[0] && args[n + 1]@ == want[1] && args[n + 2]@ == want[2]);
        if iso is Some {
            assert(args[n + 3]@ == want[3] && args[n + 4]@ == want[4]);
        }
    }
}

/// What is spawned depends on the disc image in its arguments alone: with and
/// without one the same program is run.
pub proof fn the_disc_image_chooses_no_program(
    a: Result<LaunchPlan, SlippiLaunchError>,
    b: Result<LaunchPlan, SlippiLaunchError>,
    replay: Seq<char>,
    comm: Seq<char>,
    set: Option<Seq<char>>,
    isos: (Option<Seq<char>>, Option<Seq<char>>),
    found: Option<Seq<char>>,
    platform: Platform,
)
    requires
        is_launch(a, replay, comm, set, isos.0, found, platform),
        is_launch(b, replay, comm, set, isos.1, found, platform),
    ensures
        a is Ok <==> b is Ok,
        a is Ok ==> a->Ok_0.program@ == b->Ok_0.program@,
{
}

// --------------------------------------------------------- laws of the discovery

proof fn lemma_joined_ends(style: PathStyle, base: Seq<char>, part: Seq<char>)
    requires
        part.len() > 0,
        !is_verbatim(style, base),
    ensures
        finishes_with(joined(style, base, part), part),
{
    let all = joined(style, base, part);
    assert(all.subrange(all.len() - part.len(), all.len() as int) =~= part);
}

/// On macOS the playback build is looked for first, then the netplay build, and
/// last, with or without a home directory, the bundle among the applications.
pub proof fn macos_looks_for_playback_first(home: Seq<char>)
    ensures
        macos_candidates(None) == seq!["/Applications/Slippi Dolphin.app"@],
        macos_candidates(Some(home)).len() == 3,
        finishes_with(macos_candidates(Some(home))[0], "playback/Slippi Dolphin.app"@),
        finishes_with(macos_candidates(Some(home))[1], "netplay/Slippi Dolphin.app"@),
        macos_candidates(Some(home)).last() == macos_candidates(None)[0],
{
    reveal_strlit("playback/Slippi Dolphin.app");
    reveal_strlit("netplay/Slippi Dolphin.app");
    let base = joined(PathStyle::Unix, home, "Library/Application Support/Slippi Launcher"@);
    lemma_joined_ends(PathStyle::Unix, base, "playback/Slippi Dolphin.app"@);
    lemma_joined_ends(PathStyle::Unix, base, "netplay/Slippi Dolphin.app"@);
}

/// On Linux a configuration directory that is set decides alone, the one in the
/// home directory stands in for it, and without either there is nowhere to
/// look. The playback build is looked for first.
pub proof fn linux_looks_for_playback_first(
    xdg: Seq<char>,
    home: Seq<char>,
    other: Option<Seq<char>>,
)
    ensures
        linux_dirs(Some(xdg), other) == linux_dirs(Some(xdg), None),
        linux_dirs(None, Some(home)) == linux_dirs(
            Some(joined(PathStyle::Unix, home, ".config"@)),
            other,
        ),
        linux_dirs(None, None).len() == 0,
        linux_dirs(Some(xdg), other).len() == 2,
        finishes_with(linux_dirs(Some(xdg), other)[0], "playback"@),
        finishes_with(linux_dirs(Some(xdg), other)[1], "netplay"@),
{
    reveal_strlit("playback");
    reveal_strlit("netplay");
    let root = joined(PathStyle::Unix, xdg, "Slippi Launcher"@);
    lemma_joined_ends(PathStyle::Unix, root, "playback"@);
    lemma_joined_ends(PathStyle::Unix, root, "netplay"@);
}

/// Without application data there is nowhere to look on Windows; with it there
/// are two places, and each is the same program.
pub proof fn windows_looks_in_two_places(appdata: Seq<char>)
    ensures
        windows_candidates(None).len() == 0,
        windows_candidates(Some(appdata)).len() == 2,
        !is_verbatim(
            PathStyle::Windows,
            joined(
                PathStyle::Windows,
                joined(PathStyle::Windows, appdata, "Slippi Launcher"@),
                "playback"@,
            ),
        ) ==> finishes_with(windows_candidates(Some(appdata))[0], "Slippi Dolphin.exe"@),
        !is_verbatim(
            PathStyle::Windows,
            joined(
                PathStyle::Windows,
                joined(PathStyle::Windows, appdata, "Slippi Launcher"@),
                "netplay"@,
            ),
        ) ==> finishes_with(windows_candidates(Some(appdata))[1], "Slippi Dolphin.exe"@),
{
    reveal_strlit("Slippi Dolphin.exe");
    let base = joined(PathStyle::Windows, appdata, "Slippi Launcher"@);
    let a = joined(PathStyle::Windows, base, "playback"@);
    let b = joined(PathStyle::Windows, base, "netplay"@);
    if !is_verbatim(PathStyle::Windows, a) {
        lemma_joined_ends(PathStyle::Windows, a, "Slippi Dolphin.exe"@);
    }
    if !is_verbatim(PathStyle::Windows, b) {
        lemma_joined_ends(PathStyle::Windows, b, "Slippi Dolphin.exe"@);
    }
}

/// The first AppImage is one of the names, and every other AppImage among them
/// stands after it or is it.
pub proof fn the_first_appimage_is_the_least(names: Seq<Seq<char>>, a: Seq<char>, b: Seq<char>)
    requires
        is_first_appimage(names, a),
    ensures
        names.contains(a) && is_appimage(a),
        names.contains(b) && is_appimage(b) && b != a ==> precedes(a, b),
        is_first_appimage(names, b) ==> a == b,
{
    if names.contains(b) && is_appimage(b) {
        let i = choose|i: int| 0 <= i < names.len() && names[i] == b;
        assert(!precedes(names[i], a));
        lemma_precedes_total(a, b);
    }
    if is_first_appimage(names, b) {
        let i = choose|i: int| 0 <= i < names.len() && names[i] == a;
        assert(!precedes(names[i], b));
    }
}

proof fn lemma_line_ends(line: Seq<char>, rest: Seq<char>)
    requires
        forall|k: int| 0 <= k < line.len() ==> #[trigger] line[k] != '\n',
    ensures
        line_end(line + seq!['\n'] + rest) == line.len(),
        line_end(line) == line.len(),
    decreases line.len(),
{
    let all = line + seq!['\n'] + rest;
    if line.len() > 0 {
        assert(all[0] == line[0]);
        assert forall|k: int| 0 <= k < line.drop_first().len() implies #[trigger] line.drop_first()[k]
            != '\n' by {
            assert(line[k + 1] != '\n');
        }
        lemma_line_ends(line.drop_first(), rest);
        assert(all.drop_first() =~= line.drop_first() + seq!['\n'] + rest);
    } else {
        assert(all[0] == '\n');
    }
}

/// The first line that is wanted is the first line, where that is wanted, else
/// it is among the others.
proof fn lemma_first_line_steps(
    line: Seq<char>,
    rest: Seq<char>,
    wanted: spec_fn(Seq<char>) -> bool,
)
    requires
        forall|k: int| 0 <= k < line.len() ==> #[trigger] line[k] != '\n',
    ensures
        first_line(line + seq!['\n'] + rest, wanted) == (if wanted(trimmed(line)) {
            Some(trimmed(line))
        } else {
            first_line(rest, wanted)
        }),
        line.len() > 0 ==> first_line(line, wanted) == (if wanted(trimmed(line)) {
            Some(trimmed(line))
        } else {
            None
        }),
{
    let all = line + seq!['\n'] + rest;
    lemma_line_ends(line, rest);
    assert(all.take(line.len() as int) =~= line);
    assert(all.skip(line.len() as int + 1) =~= rest);
    assert(line.take(line.len() as int) =~= line);
}

/// How the lines of a search are weighed, from the first to the last: a line
/// that cannot be used changes nothing; a playback build wins over everything
/// after it; a netplay build stands unless a playback build follows; any other
/// stands unless a playback or a netplay build follows.
pub proof fn searches_prefer_playback(line: Seq<char>, rest: Seq<char>)
    requires
        forall|k: int| 0 <= k < line.len() ==> #[trigger] line[k] != '\n',
    ensures
        ({
            let all = best_hit(line + seq!['\n'] + rest);
            let l = trimmed(line);
            let after = best_hit(rest);
            let blank = l.len() == 0 || begins_with(l, "/Volumes/"@);
            let playback = contains_text(l, "/playback/"@);
            let netplay = contains_text(l, "/netplay/"@);
            &&& blank ==> all == after
            &&& !blank && playback ==> all == Some(l)
            &&& !blank && !playback && netplay ==> all == (if after is Some && contains_text(
                after->0,
                "/playback/"@,
            ) {
                after
            } else {
                Some(l)
            })
            &&& !blank && !playback && !netplay ==> all == (if after is Some && (contains_text(
                after->0,
                "/playback/"@,
            ) || contains_text(after->0, "/netplay/"@)) {
                after
            } else {
                Some(l)
            })
        }),
        best_hit(seq![]) is None,
{
    let (p, n, o) = (
        |l: Seq<char>| playback_hit(l),
        |l: Seq<char>| netplay_hit(l),
        |l: Seq<char>| other_hit(l),
    );
    lemma_first_line_steps(line, rest, p);
    lemma_first_line_steps(line, rest, n);
    lemma_first_line_steps(line, rest, o);
    lemma_first_line_is_wanted(rest, p);
    lemma_first_line_is_wanted(rest, n);
    lemma_first_line_is_wanted(rest, o);
}

// --------------------------------------------------------- laws of the comm file

/// Ordinary characters stand for themselves in a JSON string, and the text of
/// two parts is written as the two, one after the other.
pub proof fn ordinary_text_is_written_as_it_is(c: char, a: Seq<char>, b: Seq<char>)
    ensures
        c as u32 >= 0x20 && c != '"' && c != '\\' ==> escaped_char(c) == seq![c],
        c as u32 >= 0x20 && (c == '"' || c == '\\') ==> escaped_char(c) == seq!['\\', c],
        escaped(a + b) == escaped(a) + escaped(b),
    decreases a.len(),
{
    if a.len() > 0 {
        ordinary_text_is_written_as_it_is(c, a.drop_first(), b);
        assert((a + b).drop_first() =~= a.drop_first() + b);
        assert((a + b)[0] == a[0]);
        assert(escaped(a + b) =~= escaped(a) + escaped(b));
    } else {
        assert(a + b =~= b);
        assert(escaped(a) + escaped(b) =~= escaped(b));
    }
}

/// The comm file names the replay, and different replays have different comm
/// files.
pub proof fn comm_files_name_their_replay(a: Seq<char>, b: Seq<char>)
    ensures
        contains_text(comm_json(a), quoted(a)),
        comm_json(a) == comm_json(b) ==> a == b,
{
    let head = "{\"mode\":\"normal\",\"replay\":"@;
    let tail = ",\"isRealTimeMode\":false,\"outputOverlayFiles\":false}"@;
    text_holds_its_parts(head, quoted(a), tail);
    if comm_json(a) == comm_json(b) {
        let (m, n) = (head.len() as int, comm_json(a).len() - tail.len());
        assert(comm_json(a).subrange(m, n) =~= quoted(a));
        assert(comm_json(b).subrange(m, n) =~= quoted(b));
        let k = quoted(a).len() - 1;
        assert(quoted(a).subrange(1, k) =~= escaped(a));
        assert(quoted(b).subrange(1, k) =~= escaped(b));
        escaping_reads_back(a);
        escaping_reads_back(b);
    }
}

/// Only the letters from A to Z differ by case: text is the same as itself, the
/// same either way round, and the same as what differs from it by case alone.
pub proof fn only_letters_differ_by_case(a: Seq<char>, b: Seq<char>, c: char)
    ensures
        same_but_case(a, a),
        same_but_case(a, b) <==> same_but_case(b, a),
        same_but_case(a, b) ==> a.len() == b.len(),
        65 <= c as u32 <= 90 ==> small(c) as u32 == c as u32 + 32,
        !(65 <= c as u32 <= 90) ==> small(c) == c,
        small(small(c)) == small(c),
{
}

/// A file is an AppImage exactly where what follows its last dot says so, in
/// capitals or not.
pub proof fn appimages_are_known_by_their_ending(stem: Seq<char>, ext: Seq<char>)
    requires
        stem.len() > 0,
        ext.len() > 0,
        no_slash(stem),
        no_slash(ext),
        forall|i: int| 0 <= i < ext.len() ==> #[trigger] ext[i] != '.',
    ensures
        is_appimage(stem + seq!['.'] + ext) <==> same_but_case(ext, "AppImage"@),
        is_appimage(stem + seq!['.'] + "AppImage"@),
{
    reveal_strlit("AppImage");
    names_stand_by_themselves(stem, ext);
    names_stand_by_themselves(stem, "AppImage"@);
    only_letters_differ_by_case("AppImage"@, ext, 'A');
}

} // verus!
