use openfusion_launcher::util::{
    false_fn, find_macos_wine_installs, first_ipv4, get_compat_data_dir, get_env_var_value,
    get_path_as_file_uri, progress_item, resolve_server_addr, split_addr_port,
    string_version_to_u32, true_fn, wine_app_name, AddrError, CacheEvent, CacheProgressItem,
    CacheProgressState, IpAddress, ItemProgress,
};

#[test]
fn booleans() {
    assert!(true_fn());
    assert!(!false_fn());
}

#[test]
fn version_numbers() {
    assert_eq!(string_version_to_u32("1.2.3"), (1 << 16) | (2 << 8) | 3);
    assert_eq!(string_version_to_u32("2"), 2 << 16);
    assert_eq!(string_version_to_u32("2.1"), (2 << 16) | (1 << 8));
    assert_eq!(string_version_to_u32("1.2.3.x"), (1 << 16) | (2 << 8) | 3);
    assert_eq!(string_version_to_u32("65536.0.0"), 0);
    assert_eq!(string_version_to_u32("0.300.0"), 300 << 8);
}

#[test]
fn addresses() {
    assert_eq!(split_addr_port("example.com"), Ok(("example.com".to_string(), 23000)));
    assert_eq!(split_addr_port("example.com:8080"), Ok(("example.com".to_string(), 8080)));
    assert_eq!(split_addr_port("a:1:2"), Ok(("a".to_string(), 1)));
    assert_eq!(split_addr_port("a:70000"), Err(AddrError::InvalidPort));
    assert_eq!(split_addr_port("a:"), Err(AddrError::InvalidPort));
    assert_eq!(resolve_server_addr("1.2.3.4:5", true, None), Ok("1.2.3.4:5".to_string()));
    assert_eq!(resolve_server_addr("host", false, Some("9.9.9.9".into())), Ok("9.9.9.9:23000".to_string()));
    assert_eq!(resolve_server_addr("host:81", false, Some("9.9.9.9".into())), Ok("9.9.9.9:81".to_string()));
    assert_eq!(resolve_server_addr("host:81", false, None), Err(AddrError::Unresolved));
    assert_eq!(resolve_server_addr("host:x", true, None), Err(AddrError::InvalidPort));
    assert_eq!(first_ipv4(&vec![IpAddress::V6, IpAddress::V4(10, 0, 0, 255), IpAddress::V4(1, 1, 1, 1)]), Some("10.0.0.255".to_string()));
    assert_eq!(first_ipv4(&vec![IpAddress::V6]), None);
}

#[test]
fn environment_lookup() {
    let envs = vec![
        ("WINEPREFIX".to_string(), Some(String::new())),
        ("OTHER".to_string(), Some("x".to_string())),
        ("STEAM_COMPAT_DATA_PATH".to_string(), None),
    ];
    assert_eq!(get_env_var_value(&envs, "OTHER", Some("y".into())), Some("x".to_string()));
    assert_eq!(get_env_var_value(&envs, "WINEPREFIX", Some("/p".into())), Some("/p".to_string()));
    assert_eq!(get_env_var_value(&envs, "WINEPREFIX", Some("".into())), None);
    assert_eq!(get_compat_data_dir(false, &envs, None, Some("/w".into())), Some("/w".to_string()));
    assert_eq!(get_compat_data_dir(false, &envs, Some("/s".into()), Some("/w".into())), Some("/s".to_string()));
    assert_eq!(get_compat_data_dir(true, &envs, Some("/s".into()), Some("/w".into())), None);
}

#[test]
fn wine_installs() {
    assert_eq!(wine_app_name("/Applications/Wine Stable.app/Contents/Resources/wine/bin/wine"), "Wine Stable");
    assert_eq!(wine_app_name("/a/b.app.app/c"), "b");
    let found = find_macos_wine_installs(&vec![false, true, false, false, true]);
    let names: Vec<&str> = found.iter().map(|(n, _)| n.as_str()).collect();
    assert_eq!(names, vec!["Wine Crossover", "Wine Staging"]);
    assert_eq!(found[0].1, "/Applications/Wine Crossover.app/Contents/Resources/wine/bin/wine");
}

#[test]
fn file_uris() {
    assert_eq!(get_path_as_file_uri("/home/u/x", false), "file:///home/u/x");
    assert_eq!(get_path_as_file_uri("C:\\Games\\ff", true), "file:///C:/Games/ff");
}

#[test]
fn cache_progress() {
    assert_eq!(
        progress_item(ItemProgress::Failed { item_size: 10, missing: true }),
        Some(CacheProgressItem { item_size: 10, corrupt: true, missing: true })
    );
    assert_eq!(
        progress_item(ItemProgress::Passed { item_size: 3 }),
        Some(CacheProgressItem { item_size: 3, corrupt: false, missing: false })
    );
    assert_eq!(progress_item(ItemProgress::InProgress), None);
    let mut st = CacheProgressState::new();
    let a = CacheProgressItem { item_size: 1, corrupt: false, missing: false };
    let b = CacheProgressItem { item_size: 2, corrupt: true, missing: false };
    st.apply_event(CacheEvent::ItemProcessed("x".into(), a));
    st.apply_event(CacheEvent::ItemProcessed("y".into(), a));
    st.apply_event(CacheEvent::ItemProcessed("x".into(), b));
    assert!(!st.is_done());
    st.apply_event(CacheEvent::Done);
    assert!(st.is_done());
    let snap = st.snapshot(true, 7);
    assert!(snap.done && snap.offline && snap.uuid == 7);
    assert_eq!(snap.items, vec![("x".to_string(), b), ("y".to_string(), a)]);
}

#[test]
fn version_numbers_order_like_their_parts() {
    assert_eq!(string_version_to_u32("1"), string_version_to_u32("1.0"));
    assert_eq!(string_version_to_u32("1.0"), string_version_to_u32("1.0.0"));
    assert!(string_version_to_u32("1.2.3") < string_version_to_u32("1.2.4"));
    assert!(string_version_to_u32("1.2.255") < string_version_to_u32("1.3"));
    assert!(string_version_to_u32("1.255.255") < string_version_to_u32("2"));
    assert_eq!(string_version_to_u32("2.1.7"), (2 << 16) | (1 << 8) | 7);
}

#[test]
fn host_and_port_round_trip() {
    for port in [0u16, 1, 80, 23000, 65535] {
        assert_eq!(split_addr_port(&format!("play.example.org:{}", port)), Ok(("play.example.org".to_string(), port)));
    }
    assert_eq!(split_addr_port("play.example.org"), Ok(("play.example.org".to_string(), 23000)));
}
