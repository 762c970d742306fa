use std::collections::HashMap;
use openfusion_launcher::app_state::{choose_config, get_default_cache_dir, get_default_offline_cache_dir, AppState, AppStatics, ConfigChoice};
use openfusion_launcher::config::{Config, FpsFix, GameSettings, GraphicsApi, LaunchBehavior, LauncherSettings};
use openfusion_launcher::profiles::{LaunchProfile, LaunchProfiles, ProfileError};
use openfusion_launcher::servers::{Server, ServerInfo, Servers};
use openfusion_launcher::tokens::Tokens;
use openfusion_launcher::versions::{Version, Versions};

fn version(uuid: u128, name: &str) -> Version {
    Version { uuid, name: Some(name.to_string()), asset_url: format!("http://cdn/{}", name) }
}

fn simple(uuid: u128, version: &str) -> Server {
    Server { uuid, description: None, info: ServerInfo::Simple { ip: "1.1.1.1".into(), version: version.into() } }
}

fn versions() -> Versions {
    Versions { versions: vec![version(0x67e55044_10b1_426f_9247_bb680e5fe0c8, "beta-20100104")], filenames: HashMap::new() }
}

fn state(servers: Vec<Server>) -> AppState {
    AppState::assemble(
        Config::with_cache_dirs("/c".into(), "/o".into()),
        true,
        Some(LaunchProfiles::new_empty()),
        LaunchProfiles::new_empty(),
        versions(),
        Servers { servers, favorites: vec![] },
        Tokens::new_empty(),
    )
    .unwrap()
}

const UUID_STR: &str = "67e55044-10b1-426f-9247-bb680e5fe0c8";

#[test]
fn fixup_replaces_version_names_by_uuids() {
    let mut servers = Servers { servers: vec![simple(1, "beta-20100104"), simple(2, "unknown")], favorites: vec![] };
    AppState::fixup_server_versions(&mut servers, &versions());
    assert!(matches!(&servers.servers[0].info, ServerInfo::Simple { version, .. } if version == UUID_STR));
    assert!(matches!(&servers.servers[1].info, ServerInfo::Simple { version, .. } if version == "unknown"));
}

#[test]
fn assemble_fixes_up_servers() {
    let s = state(vec![simple(1, "beta-20100104")]);
    assert!(matches!(&s.servers.servers[0].info, ServerInfo::Simple { version, .. } if version == UUID_STR));
    assert!(s.write_config);
    assert!(s.temp_tokens.is_empty());
}

#[test]
fn assemble_keeps_game_settings() {
    let mut config = Config::with_cache_dirs("/c".into(), "/o".into());
    config.game.graphics_api = GraphicsApi::Vulkan;
    config.game.fps_fix = FpsFix::OnWithLimiter(60);
    config.game.window_size = Some(openfusion_launcher::config::WindowSize { width: 800, height: 600 });
    let s = AppState::assemble(
        config,
        false,
        Some(LaunchProfiles::new_empty()),
        LaunchProfiles::new_empty(),
        versions(),
        Servers { servers: vec![simple(1, "a"), simple(2, "a")], favorites: vec![] },
        Tokens::new_empty(),
    )
    .unwrap();
    assert_eq!(s.config.game.graphics_api, GraphicsApi::Vulkan);
    assert_eq!(s.config.game.fps_fix, FpsFix::OnWithLimiter(60));
    assert_eq!(s.config.game.window_size.map(|w| (w.width, w.height)), Some((800, 600)));
    assert_eq!(s.get_version_use_count(0x67e55044_10b1_426f_9247_bb680e5fe0c8), 0);
}

#[test]
fn assemble_fails_only_on_bad_migration_pattern() {
    let r = AppState::assemble(
        Config::with_cache_dirs("/c".into(), "/o".into()),
        false,
        Some(LaunchProfiles { profiles: vec![LaunchProfile { uuid: 1, name: "w".into(), command: "wine {}".into(), preset: true }] }),
        LaunchProfiles::new_empty(),
        versions(),
        Servers::new_empty(),
        Tokens::new_empty(),
    );
    assert!(!matches!(r, Err(ProfileError::InvalidPattern)));
}

#[test]
fn version_use_count_counts_servers_and_preferences() {
    let endpoint = Server {
        uuid: 3,
        description: None,
        info: ServerInfo::Endpoint { endpoint: "e".into(), preferred_version: Some(UUID_STR.into()) },
    };
    let s = state(vec![simple(1, UUID_STR), simple(2, "other"), endpoint]);
    assert_eq!(s.get_version_use_count(0x67e55044_10b1_426f_9247_bb680e5fe0c8), 2);
    assert_eq!(s.get_version_use_count(5), 0);
}

#[test]
fn import_servers_fixes_up_and_merges() {
    let mut s = state(vec![simple(1, "a")]);
    assert_eq!(s.import_servers(None), 0);
    let imported = Servers { servers: vec![simple(1, "b"), simple(2, "beta-20100104")], favorites: vec![] };
    assert_eq!(s.import_servers(Some(imported)), 1);
    assert!(matches!(&s.servers.servers[1].info, ServerInfo::Simple { version, .. } if version == UUID_STR));
}

#[test]
fn importing_servers_twice_adds_nothing() {
    let mut s = state(vec![simple(1, "a")]);
    let imported = || Servers { servers: vec![simple(2, "beta-20100104"), simple(3, "x")], favorites: vec![] };
    assert_eq!(s.import_servers(Some(imported())), 2);
    assert_eq!(s.import_servers(Some(imported())), 0);
    assert_eq!(s.servers.servers.len(), 3);
}

#[test]
fn import_versions_skips_known() {
    let mut s = state(vec![]);
    let legacy = vec![version(9, "beta-20100104"), version(10, "new")];
    let to_import = s.versions_to_import(legacy);
    assert_eq!(to_import.len(), 1);
    assert_eq!(s.add_imported_versions(to_import), 1);
    assert_eq!(s.versions.versions.len(), 2);
}

#[test]
fn config_choice() {
    let c = Config::with_cache_dirs("/c".into(), "/o".into());
    assert!(matches!(choose_config(Some(c), true), ConfigChoice::Loaded(_)));
    assert!(matches!(choose_config(None, true), ConfigChoice::Defaults { write_config: false, warn: true }));
    assert!(matches!(choose_config(None, false), ConfigChoice::Defaults { write_config: true, warn: false }));
    assert!(choose_config(Some(Config::with_cache_dirs("/c".into(), "/o".into())), false).write_config());
    assert!(!choose_config(None, true).write_config());
    assert!(choose_config(None, false).write_config());
}

#[test]
fn defaults() {
    let c = Config::with_cache_dirs("/c".into(), "/o".into());
    assert!(c.launcher.check_for_updates && c.launcher.use_offline_caches && c.launcher.proxy_asset_downloads);
    assert!(!c.launcher.verify_offline_caches && !c.launcher.delete_old_game_caches);
    assert_eq!(c.launcher.launch_behavior, LaunchBehavior::Hide);
    assert_eq!(c.launcher.game_cache_path, "/c");
    let g = GameSettings::default();
    assert_eq!(g.graphics_api, GraphicsApi::Dx9);
    assert_eq!(g.fps_fix, FpsFix::On);
    assert_eq!(g.launch_profile, 0);
    assert_eq!(LaunchBehavior::default(), LaunchBehavior::Hide);
    assert_eq!(FpsFix::default(), FpsFix::On);
    let l = LauncherSettings::with_cache_dirs("/x".into(), "/y".into());
    assert_eq!(l.offline_cache_path, "/y");
}

#[test]
fn statics() {
    let st = AppStatics {
        version: "2.0.1".into(),
        app_data_dir: "/d".into(),
        resource_dir: "/r".into(),
        ff_cache_dir: "/ff".into(),
        offline_cache_dir: "/off".into(),
        compat_data_dir: "/compat".into(),
        ffrunner_log_path: "/d/ffrunner.log".into(),
    };
    assert_eq!(st.get_version(), "2.0.1");
    assert_eq!(get_default_cache_dir(&st), "/ff");
    assert_eq!(get_default_offline_cache_dir(&st), "/off");
}

#[test]
fn tokens_read_after_write() {
    let mut t = Tokens::new_empty();
    t.save_token(1, "abc");
    t.save_token(2, "def");
    t.save_token(1, "xyz");
    assert_eq!(t.get_token(1).as_deref(), Some("xyz"));
    assert_eq!(t.get_token(2).as_deref(), Some("def"));
    t.remove_token(1);
    assert_eq!(t.get_token(1), None);
    assert_eq!(t.get_token(2).as_deref(), Some("def"));
    t.clear();
    assert_eq!(t.get_token(2), None);
}
