use std::path::PathBuf;

use stats_melee::config::{
    default_video_dir, optional_text, path_in, resolve_vanilla_dolphin_binary, AppConfig,
    ConfigError,
};
use stats_melee::paths::PathStyle;

#[test]
fn default_has_no_replay_dir() {
    let cfg = AppConfig::default();
    assert!(cfg.replay_dir.is_none());
    assert!(cfg.user_player_code.is_empty());
    assert!(cfg.db_path.is_none());
    assert!(cfg.slippi_playback_command.is_none());
    assert!(cfg.slippi_launcher_path.is_none());
    assert!(cfg.melee_iso_path.is_none());
}

#[test]
fn settings_that_cannot_be_read_are_the_default_ones() {
    let mut cfg = AppConfig::default();
    cfg.user_player_code = "FOX#1".to_string();
    assert_eq!(AppConfig::load(Some(cfg)).user_player_code, "FOX#1");
    assert!(AppConfig::load(None).replay_dir.is_none());
}

#[test]
fn a_folder_of_replays_ends_the_onboarding() {
    let mut cfg = AppConfig::default();
    assert!(cfg.needs_onboarding());
    cfg.replay_dir = Some(String::new());
    assert!(cfg.needs_onboarding());
    cfg.replay_dir = Some("/replays".to_string());
    assert!(!cfg.needs_onboarding());
}

#[test]
fn a_named_database_wins_over_the_default() {
    let mut cfg = AppConfig::default();
    let default = || Ok(PathBuf::from("/data/stats_melee.db"));
    assert_eq!(cfg.db_path_or(default()), Ok(PathBuf::from("/data/stats_melee.db")));
    assert_eq!(
        cfg.db_path_or(Err(ConfigError::NoProjectDirs)),
        Err(ConfigError::NoProjectDirs)
    );
    cfg.db_path = Some("/mine.db".to_string());
    assert_eq!(cfg.db_path_or(default()), Ok(PathBuf::from("/mine.db")));
    assert_eq!(
        cfg.db_path_or(Err(ConfigError::NoProjectDirs)),
        Ok(PathBuf::from("/mine.db"))
    );
    assert_eq!(cfg.effective_db_path(), Ok(PathBuf::from("/mine.db")));
}

#[test]
fn files_have_their_names_under_the_program_directories() {
    if let Ok(p) = AppConfig::config_path() {
        assert!(p.ends_with("config.toml"), "got: {p:?}");
        assert!(p.to_string_lossy().contains("stats-melee"), "got: {p:?}");
    }
    if let Ok(p) = AppConfig::default_db_path() {
        assert!(p.ends_with("stats_melee.db"), "got: {p:?}");
        assert!(p.to_string_lossy().contains("stats-melee"), "got: {p:?}");
        assert_eq!(AppConfig::default().effective_db_path(), Ok(p));
    }
    if let Ok(p) = AppConfig::default_assets_dir() {
        assert!(p.ends_with("assets"), "got: {p:?}");
    }
    if let Ok(p) = default_video_dir() {
        assert!(p.ends_with("stats-melee/video"), "got: {p:?}");
    }
    assert_eq!(
        path_in(Some(PathBuf::from("/c")), "config.toml", ConfigError::NoProjectDirs),
        Ok(PathBuf::from("/c/config.toml"))
    );
    assert_eq!(
        path_in(None, "config.toml", ConfigError::NoCacheDir),
        Err(ConfigError::NoCacheDir)
    );
    assert_eq!(
        ConfigError::NoProjectDirs.message(),
        "could not resolve ProjectDirs for stats-melee"
    );
    assert_eq!(
        ConfigError::NoCacheDir.message(),
        "could not resolve a platform cache directory"
    );
}

#[test]
fn blank_fields_have_no_value() {
    assert_eq!(optional_text("  \t"), None);
    assert_eq!(optional_text(" /x "), Some(" /x ".to_string()));
    let mut cfg = AppConfig::default();
    cfg.user_player_code = "  ME#1\n".to_string();
    assert_eq!(cfg.user_code(), Some("ME#1"));
    cfg.user_player_code = "   ".to_string();
    assert_eq!(cfg.user_code(), None);
}

#[test]
fn vanilla_dolphin_is_the_one_that_is_set() {
    let mut cfg = AppConfig::default();
    assert_eq!(resolve_vanilla_dolphin_binary(&cfg, PathStyle::Unix), None);
    cfg.slippi_playback_command = Some("   ".to_string());
    assert_eq!(resolve_vanilla_dolphin_binary(&cfg, PathStyle::Unix), None);
    cfg.slippi_playback_command = Some(" /Applications/Dolphin.app ".to_string());
    assert_eq!(
        resolve_vanilla_dolphin_binary(&cfg, PathStyle::Unix),
        Some("/Applications/Dolphin.app/Contents/MacOS/Dolphin".to_string())
    );
    cfg.slippi_playback_command = Some("/usr/bin/dolphin".to_string());
    assert_eq!(resolve_vanilla_dolphin_binary(&cfg, PathStyle::Unix), Some("/usr/bin/dolphin".to_string()));
}
