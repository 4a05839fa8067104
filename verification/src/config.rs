//! The settings of the program, and where it keeps its files.
use std::path::PathBuf;
use vstd::prelude::*;
use crate::paths::{join_native, native_joined, native_path, path_from, PathStyle};
use crate::slippi::{nonblank, resolve_override_binary, program_of};
use crate::text::{blank_text_is_white, is_white, opt_text, str_text, trim, trimmed};

verus! {

broadcast use vstd::string::group_string_axioms;

/// The settings that a user can change.
#[derive(Debug, Clone)]
pub struct AppConfig {
    /// The directory that holds the replays.
    pub replay_dir: Option<String>,
    /// The user's connect code; empty where it is not set.
    pub user_player_code: String,
    /// Where the database lies, where that is not the default.
    pub db_path: Option<String>,
    /// The Slippi Dolphin to launch, where that is not the default.
    pub slippi_playback_command: Option<String>,
    /// The Slippi Launcher to take icons from, where that is not the default.
    pub slippi_launcher_path: Option<String>,
    /// The Melee disc image to boot.
    pub melee_iso_path: Option<String>,
}

/// Why a file has no place.
#[derive(Debug, Clone, Copy, PartialEq, Eq, Structural)]
pub enum ConfigError {
    /// The program has no directories of its own.
    NoProjectDirs,
    /// The program has no directory for what can be made again.
    NoCacheDir,
}

impl ConfigError {
    pub fn message(self) -> (s: &'static str)
        ensures
            s@ == (match self {
                ConfigError::NoProjectDirs => "could not resolve ProjectDirs for stats-melee"@,
                ConfigError::NoCacheDir => "could not resolve a platform cache directory"@,
            }),
    {
        match self {
            ConfigError::NoProjectDirs => "could not resolve ProjectDirs for stats-melee",
            ConfigError::NoCacheDir => "could not resolve a platform cache directory",
        }
    }
}

/// `directories::ProjectDirs`, the directories of one program of one user.
#[verifier::external_type_specification]
#[verifier::external_body]
pub struct ExProjectDirs(directories::ProjectDirs);

/// Whether `ProjectDirs::from` can answer so for a qualifier, an organization
/// and an application: with these directories, or with none.
pub uninterp spec fn gives_dirs(
    qualifier: Seq<char>,
    organization: Seq<char>,
    application: Seq<char>,
    answer: Option<directories::ProjectDirs>,
) -> bool;

/// The directory for settings that `ProjectDirs::config_dir` gives.
pub uninterp spec fn config_dir_of(dirs: directories::ProjectDirs) -> PathBuf;

/// The directory for data that `ProjectDirs::data_dir` gives.
pub uninterp spec fn data_dir_of(dirs: directories::ProjectDirs) -> PathBuf;

/// The directory for what can be made again that `ProjectDirs::cache_dir` gives.
pub uninterp spec fn cache_dir_of(dirs: directories::ProjectDirs) -> PathBuf;

/// `ProjectDirs::from` looks the directories up in the environment. Which they
/// are, and whether there are any, is left open: only that this is its answer
/// to what it was asked.
pub assume_specification[ directories::ProjectDirs::from ](
    qualifier: &str,
    organization: &str,
    application: &str,
) -> (r: Option<directories::ProjectDirs>)
    ensures
        gives_dirs(qualifier@, organization@, application@, r),
;

/// `ProjectDirs::config_dir`, the directory for settings. It depends on the
/// directories alone.
#[verifier::external_body]
fn config_dir(dirs: &directories::ProjectDirs) -> (r: PathBuf)
    ensures
        r == config_dir_of(*dirs),
{
    dirs.config_dir().to_path_buf()
}

/// `ProjectDirs::data_dir`, the directory for data. It depends on the
/// directories alone.
#[verifier::external_body]
fn data_dir(dirs: &directories::ProjectDirs) -> (r: PathBuf)
    ensures
        r == data_dir_of(*dirs),
{
    dirs.data_dir().to_path_buf()
}

/// `ProjectDirs::cache_dir`, the directory for what can be made again. It
/// depends on the directories alone.
#[verifier::external_body]
fn cache_dir(dirs: &directories::ProjectDirs) -> (r: PathBuf)
    ensures
        r == cache_dir_of(*dirs),
{
    dirs.cache_dir().to_path_buf()
}

/// Whether `ProjectDirs::from` can answer so for this program.
pub open spec fn are_own(answer: Option<directories::ProjectDirs>) -> bool {
    gives_dirs("dev"@, "slippi"@, "stats-melee"@, answer)
}

/// Whether `ProjectDirs::from` can answer so for what this program caches.
pub open spec fn are_for_caches(answer: Option<directories::ProjectDirs>) -> bool {
    gives_dirs(""@, ""@, "stats-melee"@, answer)
}

/// The path of a file under a directory.
pub open spec fn file_in(dir: PathBuf, name: Seq<char>) -> PathBuf {
    native_joined(dir, name)
}

/// The path that was found, where one was.
pub open spec fn found(r: Result<PathBuf, ConfigError>) -> Option<PathBuf> {
    match r {
        Ok(p) => Some(p),
        Err(_) => None,
    }
}

/// Whether a path is that of `name` in the program's directory for settings: it
/// is `None` where the program was given no directories, and only there.
pub open spec fn is_in_config_dir(path: Option<PathBuf>, name: Seq<char>) -> bool {
    exists|answer: Option<directories::ProjectDirs>| #[trigger]
        are_own(answer) && path == (match answer {
            Some(dirs) => Some(file_in(config_dir_of(dirs), name)),
            None => None,
        })
}

/// Whether a path is that of `name` in the program's directory for data: it is
/// `None` where the program was given no directories, and only there.
pub open spec fn is_in_data_dir(path: Option<PathBuf>, name: Seq<char>) -> bool {
    exists|answer: Option<directories::ProjectDirs>| #[trigger]
        are_own(answer) && path == (match answer {
            Some(dirs) => Some(file_in(data_dir_of(dirs), name)),
            None => None,
        })
}

/// Whether a path is that of `name` in the program's directory for caches: it
/// is `None` where the program was given no directories, and only there.
pub open spec fn is_in_cache_dir(path: Option<PathBuf>, name: Seq<char>) -> bool {
    exists|answer: Option<directories::ProjectDirs>| #[trigger]
        are_for_caches(answer) && path == (match answer {
            Some(dirs) => Some(file_in(cache_dir_of(dirs), name)),
            None => None,
        })
}

/// The path of a file under a directory, where there is one; else `missing`.
pub fn path_in(dir: Option<PathBuf>, name: &str, missing: ConfigError) -> (r: Result<
    PathBuf,
    ConfigError,
>)
    ensures
        r == (match dir {
            Some(d) => Ok(file_in(d, name@)),
            None => Err(missing),
        }),
{
    match dir {
        Some(d) => Ok(join_native(&d, name)),
        None => Err(missing),
    }
}

fn own_dirs() -> (r: Option<directories::ProjectDirs>)
    ensures
        are_own(r),
{
    directories::ProjectDirs::from("dev", "slippi", "stats-melee")
}

fn in_config_dir(name: &str) -> (r: Result<PathBuf, ConfigError>)
    ensures
        is_in_config_dir(found(r), name@),
        r matches Err(e) ==> e == ConfigError::NoProjectDirs,
{
    let answer = own_dirs();
    let ghost given = answer;
    assert(are_own(given));
    let dir = match answer {
        Some(dirs) => Some(config_dir(&dirs)),
        None => None,
    };
    path_in(dir, name, ConfigError::NoProjectDirs)
}

fn in_data_dir(name: &str) -> (r: Result<PathBuf, ConfigError>)
    ensures
        is_in_data_dir(found(r), name@),
        r matches Err(e) ==> e == ConfigError::NoProjectDirs,
{
    let answer = own_dirs();
    let ghost given = answer;
    assert(are_own(given));
    let dir = match answer {
        Some(dirs) => Some(data_dir(&dirs)),
        None => None,
    };
    path_in(dir, name, ConfigError::NoProjectDirs)
}

/// Where videos are kept while the program runs: in the program's directory for
/// caches.
pub fn default_video_dir() -> (r: Result<PathBuf, ConfigError>)
    ensures
        is_in_cache_dir(found(r), "video"@),
        r matches Err(e) ==> e == ConfigError::NoCacheDir,
{
    let answer = directories::ProjectDirs::from("", "", "stats-melee");
    let ghost given = answer;
    assert(are_for_caches(given));
    let dir = match answer {
        Some(dirs) => Some(cache_dir(&dirs)),
        None => None,
    };
    path_in(dir, "video", ConfigError::NoCacheDir)
}

impl AppConfig {
    /// Settings without a value.
    pub open spec fn is_default(self) -> bool {
        &&& self.replay_dir is None
        &&& self.user_player_code@.len() == 0
        &&& self.db_path is None
        &&& self.slippi_playback_command is None
        &&& self.slippi_launcher_path is None
        &&& self.melee_iso_path is None
    }

    /// The settings to start with: those that were read, or the default ones
    /// where none could be.
    pub fn load(read: Option<AppConfig>) -> (r: AppConfig)
        ensures
            match read {
                Some(c) => r == c,
                None => r.is_default(),
            },
    {
        match read {
            Some(c) => c,
            None => AppConfig::default(),
        }
    }

    /// Where the settings are kept: in the program's directory for settings.
    pub fn config_path() -> (r: Result<PathBuf, ConfigError>)
        ensures
            is_in_config_dir(found(r), "config.toml"@),
            r matches Err(e) ==> e == ConfigError::NoProjectDirs,
    {
        in_config_dir("config.toml")
    }

    /// Where the database lies unless the user says otherwise: in the program's
    /// directory for data.
    pub fn default_db_path() -> (r: Result<PathBuf, ConfigError>)
        ensures
            is_in_data_dir(found(r), "stats_melee.db"@),
            r matches Err(e) ==> e == ConfigError::NoProjectDirs,
    {
        in_data_dir("stats_melee.db")
    }

    /// Where icons are kept: in the program's directory for data.
    pub fn default_assets_dir() -> (r: Result<PathBuf, ConfigError>)
        ensures
            is_in_data_dir(found(r), "assets"@),
            r matches Err(e) ==> e == ConfigError::NoProjectDirs,
    {
        in_data_dir("assets")
    }

    /// The database to open: the user's, or `default`.
    pub open spec fn chosen_db(self, default: Result<PathBuf, ConfigError>) -> Result<
        PathBuf,
        ConfigError,
    > {
        match self.db_path {
            Some(p) => Ok(native_path(p@)),
            None => default,
        }
    }

    /// The database to open, where `default` is the path that it has unless the
    /// user says otherwise.
    pub fn db_path_or(&self, default: Result<PathBuf, ConfigError>) -> (r: Result<
        PathBuf,
        ConfigError,
    >)
        ensures
            r == self.chosen_db(default),
    {
        match &self.db_path {
            Some(p) => Ok(path_from(p.clone())),
            None => default,
        }
    }

    /// The database to open: the user's, or the default one.
    pub fn effective_db_path(&self) -> (r: Result<PathBuf, ConfigError>)
        ensures
            match self.db_path {
                Some(p) => r == Ok::<PathBuf, ConfigError>(native_path(p@)),
                None => is_in_data_dir(found(r), "stats_melee.db"@) && (r matches Err(e) ==> e
                    == ConfigError::NoProjectDirs),
            },
    {
        self.db_path_or(Self::default_db_path())
    }

    /// Whether the user has yet to say where the replays are.
    pub fn needs_onboarding(&self) -> (r: bool)
        ensures
            r == (match self.replay_dir {
                Some(p) => p@.len() == 0,
                None => true,
            }),
    {
        match &self.replay_dir {
            Some(p) => p.as_str().is_empty(),
            None => true,
        }
    }

    /// The user's code, where it is set.
    pub open spec fn user(self) -> Option<Seq<char>> {
        if trimmed(self.user_player_code@).len() > 0 {
            Some(trimmed(self.user_player_code@))
        } else {
            None
        }
    }

    /// The user's code, where it is set.
    pub fn user_code(&self) -> (r: Option<&str>)
        ensures
            str_text(r) == self.user(),
    {
        nonblank(Some(self.user_player_code.as_str()))
    }
}

impl Default for AppConfig {
    fn default() -> (r: Self)
        ensures
            r.is_default(),
    {
        AppConfig {
            replay_dir: None,
            user_player_code: String::new(),
            db_path: None,
            slippi_playback_command: None,
            slippi_launcher_path: None,
            melee_iso_path: None,
        }
    }
}

/// The text of an optional field: blank text stands for no value, other text
/// for itself.
pub fn optional_text(text: &str) -> (r: Option<String>)
    ensures
        opt_text(r) == (if trimmed(text@).len() == 0 {
            None
        } else {
            Some(text@)
        }),
{
    if trim(text).is_empty() {
        None
    } else {
        Some(text.to_owned())
    }
}

pub open spec fn as_strs(o: Option<String>) -> Option<Seq<char>> {
    match o {
        Some(s) => if trimmed(s@).len() > 0 {
            Some(trimmed(s@))
        } else {
            None
        },
        None => None,
    }
}

/// The Dolphin that renders videos: the one that is set, if one is.
pub fn resolve_vanilla_dolphin_binary(config: &AppConfig, style: PathStyle) -> (r: Option<String>)
    ensures
        opt_text(r) == (match as_strs(config.slippi_playback_command) {
            Some(cmd) => Some(program_of(style, cmd)),
            None => None,
        }),
{
    let cmd = match &config.slippi_playback_command {
        Some(s) => nonblank(Some(s.as_str())),
        None => None,
    };
    match cmd {
        Some(c) => Some(resolve_override_binary(c, style)),
        None => None,
    }
}

/// A database that the user names is the one that is opened, whatever the
/// default is.
pub proof fn named_database_wins(config: AppConfig, default: Result<PathBuf, ConfigError>)
    requires
        config.db_path is Some,
    ensures
        config.chosen_db(default) == Ok::<PathBuf, ConfigError>(native_path(config.db_path->0@)),
{
}

/// The user has a code exactly where something other than white space is set.
pub proof fn users_have_a_code_that_is_not_blank(config: AppConfig)
    ensures
        config.user() is Some <==> exists|k: int|
            0 <= k < config.user_player_code@.len() && !is_white(#[trigger] config.user_player_code@[k]),
        config.user() matches Some(u) ==> u == trimmed(config.user_player_code@),
{
    blank_text_is_white(config.user_player_code@);
}

/// A setting counts exactly where it has something other than white space.
pub proof fn commands_count_where_not_blank(s: String)
    ensures
        as_strs(Some(s)) is Some <==> exists|k: int| 0 <= k < s@.len() && !is_white(#[trigger] s@[k]),
        as_strs(Some(s)) matches Some(t) ==> t == trimmed(s@),
        as_strs(None) is None,
{
    blank_text_is_white(s@);
}

/// Without a database of the user's own the default one is opened, or its error
/// is told.
pub proof fn the_default_database_stands_in(config: AppConfig, default: Result<PathBuf, ConfigError>)
    requires
        config.db_path is None,
    ensures
        config.chosen_db(default) == default,
{
}

} // verus!
