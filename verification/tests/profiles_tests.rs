use openfusion_launcher::config::Config;
use openfusion_launcher::ids::NIL_UUID;
use openfusion_launcher::profiles::{preset_launch_profiles, HostOs, LaunchProfile, LaunchProfiles, LaunchProfilesView, ProfileError};

fn profile(uuid: u128, name: &str, command: &str, preset: bool) -> LaunchProfile {
    LaunchProfile { uuid, name: name.to_string(), command: command.to_string(), preset }
}

fn ids(p: &LaunchProfiles) -> Vec<u128> {
    p.profiles.iter().map(|p| p.uuid).collect()
}

fn config() -> Config {
    Config::with_cache_dirs("/cache".to_string(), "/offline".to_string())
}

#[test]
fn default_profile_is_first_preset_else_first() {
    let p = LaunchProfiles { profiles: vec![profile(1, "mine", "x {}", false), profile(2, "Wine", "wine {}", true)] };
    assert_eq!(p.get_default().unwrap().get_id(), 2);
    let q = LaunchProfiles { profiles: vec![profile(1, "mine", "x {}", false)] };
    assert_eq!(q.get_default().unwrap().get_id(), 1);
    assert!(LaunchProfiles::new_empty().get_default().is_none());
    assert!(!LaunchProfiles::new_empty().has_entries());
    let view = LaunchProfilesView::from_profiles(&p);
    assert_eq!(view.default_profile, Some(2));
    assert_eq!(view.profiles.len(), 2);
}

#[test]
fn presets_cannot_be_updated() {
    let mut p = LaunchProfiles { profiles: vec![profile(1, "mine", "x {}", false), profile(2, "Wine", "wine {}", true)] };
    assert_eq!(p.update_entry(profile(2, "Other", "y {}", true)), Err(ProfileError::PresetReadOnly));
    assert_eq!(p.update_entry(profile(3, "Other", "y {}", false)), Err(ProfileError::NotFound(3)));
    assert_eq!(p.update_entry(profile(1, "renamed", "z {}", false)), Ok(()));
    assert_eq!(p.get(1).unwrap().name, "renamed");
    assert_eq!(p.get(2).unwrap().get_command(), "wine {}");
}

#[test]
fn add_and_remove_profiles() {
    let mut p = LaunchProfiles::new_empty();
    let id = p.add_entry("Custom", "run {}");
    assert!(p.has_entries());
    assert!(!p.get(id).unwrap().is_preset());
    assert_eq!(p.get(id).unwrap().get_command(), "run {}");
    p.remove_entry(id);
    assert!(p.get(id).is_none());
}

#[test]
fn reload_presets_keeps_user_profiles() {
    let mut p = LaunchProfiles { profiles: vec![profile(1, "old preset", "a {}", true), profile(2, "mine", "b {}", false)] };
    let presets = LaunchProfiles { profiles: vec![profile(3, "new preset", "c {}", true)] };
    p.reload_presets(presets);
    assert_eq!(ids(&p), vec![3, 2]);
    p.reload_presets(LaunchProfiles { profiles: vec![profile(3, "new preset", "c {}", true)] });
    assert_eq!(ids(&p), vec![3, 2]);
}

#[test]
fn migrations_strip_steam_client_path_from_presets() {
    let loaded = LaunchProfiles {
        profiles: vec![
            profile(1, "Proton", "STEAM_COMPAT_CLIENT_INSTALL_PATH=\"/home/u/.steam\" \"/p/proton\" run {}", true),
            profile(2, "mine", "STEAM_COMPAT_CLIENT_INSTALL_PATH=\"/x\" run {}", false),
            profile(3, "Wine", "wine {}", true),
        ],
    };
    let migrated = LaunchProfiles::apply_migrations(loaded).unwrap();
    assert_eq!(migrated.profiles[0].command, "\"/p/proton\" run {}");
    assert_eq!(migrated.profiles[1].command, "STEAM_COMPAT_CLIENT_INSTALL_PATH=\"/x\" run {}");
    assert_eq!(migrated.profiles[2].command, "wine {}");
}

#[test]
fn load_without_saved_profiles_makes_custom_profile() {
    let mut c = config();
    c.game.launch_command = Some("old {}".to_string());
    let presets = LaunchProfiles { profiles: vec![profile(3, "Wine", "wine {}", true)] };
    let p = LaunchProfiles::load(&mut c, None, presets).unwrap();
    assert_eq!(p.profiles.len(), 2);
    assert_eq!(p.profiles[1].name, "Custom Profile");
    assert_eq!(p.profiles[1].command, "old {}");
    assert_eq!(c.game.launch_profile, p.profiles[1].uuid);
}

#[test]
fn load_fixes_missing_selection() {
    let mut c = config();
    c.game.launch_profile = 42;
    let saved = LaunchProfiles { profiles: vec![profile(1, "mine", "x {}", false), profile(2, "Wine", "wine {}", true)] };
    let p = LaunchProfiles::load(&mut c, Some(saved), LaunchProfiles::new_empty()).unwrap();
    assert_eq!(ids(&p), vec![1, 2]);
    assert_eq!(c.game.launch_profile, 2);
    let mut c2 = config();
    c2.game.launch_profile = 42;
    let _ = LaunchProfiles::load(&mut c2, None, LaunchProfiles::new_empty()).unwrap();
    assert_eq!(c2.game.launch_profile, NIL_UUID);
    let mut c3 = config();
    c3.game.launch_profile = 1;
    let saved = LaunchProfiles { profiles: vec![profile(1, "mine", "x {}", false)] };
    let _ = LaunchProfiles::load(&mut c3, Some(saved), LaunchProfiles::new_empty()).unwrap();
    assert_eq!(c3.game.launch_profile, 1);
}

#[test]
fn new_profile_has_random_uuid() {
    let p = LaunchProfile::new("n", "c {}", true);
    assert_ne!(p.get_id(), NIL_UUID);
    assert!(p.is_preset());
}

#[test]
fn preset_profiles_per_system() {
    let wine = vec![("Wine Stable".to_string(), "/Applications/Wine Stable.app/w".to_string())];
    let proton = vec![("Proton 9.0".to_string(), "/steam/Proton 9.0/proton".to_string())];
    let entries = |p: &LaunchProfiles| -> Vec<(String, String)> {
        p.profiles.iter().map(|p| (p.name.clone(), p.command.clone())).collect()
    };
    let w = preset_launch_profiles(HostOs::Windows, &wine, Some("/steam".into()), &proton, Some("/usr/bin/wine".into()));
    assert_eq!(entries(&w), vec![("Native".to_string(), "{}".to_string())]);
    assert!(w.profiles.iter().all(|p| p.is_preset()));
    let m = preset_launch_profiles(HostOs::MacOs, &wine, None, &proton, None);
    assert_eq!(entries(&m), vec![("Wine Stable".to_string(), "\"/Applications/Wine Stable.app/w\" {}".to_string())]);
    let l = preset_launch_profiles(HostOs::Linux, &wine, Some("/steam".into()), &proton, Some("/usr/bin/wine".into()));
    assert_eq!(entries(&l), vec![
        ("Proton 9.0".to_string(), "STEAM_COMPAT_CLIENT_INSTALL_PATH=\"/steam\" \"/steam/Proton 9.0/proton\" run {}".to_string()),
        ("Wine (/usr/bin/wine)".to_string(), "\"/usr/bin/wine\" {}".to_string()),
    ]);
    let l2 = preset_launch_profiles(HostOs::Linux, &wine, None, &proton, None);
    assert!(l2.profiles.is_empty());
}
