use openfusion_launcher::endpoint::{
    check_fetched_version, check_status, cookie_outcome, custom_icon_outcome, refresh_token_outcome,
    register_outcome, route_url, version_fetch_retry, version_filenames, AccountInfo, AccountInfoResponse, AuthRequest,
    CookieResponse, EndpointError, InfoResponse, RegisterRequest, Route,
};
use openfusion_launcher::versions::Version;

fn info(game_version: Option<&str>, game_versions: Option<Vec<&str>>) -> InfoResponse {
    InfoResponse {
        server_name: "s".into(),
        api_version: "1".into(),
        secure_apis_enabled: true,
        game_version: game_version.map(|s| s.to_string()),
        game_versions: game_versions.map(|v| v.into_iter().map(|s| s.to_string()).collect()),
        login_address: "l".into(),
        email_required: None,
        custom_loading_screen: None,
    }
}

#[test]
fn supported_versions() {
    assert_eq!(info(Some("a"), Some(vec!["b", "c"])).get_supported_versions(), vec!["b", "c"]);
    assert_eq!(info(Some("a"), None).get_supported_versions(), vec!["a"]);
    assert!(info(None, None).get_supported_versions().is_empty());
}

#[test]
fn urls() {
    assert_eq!(route_url("api.example", &Route::Info), "https://api.example");
    assert_eq!(route_url("api.example", &Route::Status), "https://api.example/status");
    assert_eq!(route_url("h", &Route::UpdatePassword), "https://h/account/update/password");
    assert_eq!(route_url("h", &Route::Version("x.json".into())), "https://h/versions/x.json");
    assert_eq!(route_url("h", &Route::Icon), "https://h/launcher/icon.ico");
}

#[test]
fn status_handling() {
    assert_eq!(check_status("u".into(), 204, "b".into()).unwrap(), "b");
    assert!(matches!(check_status("u".into(), 404, "nf".into()), Err(EndpointError::Api(e)) if e.status == 404 && e.body == "nf" && e.url == "u"));
    let r = register_outcome("u".into(), 201, "ok".into()).unwrap();
    assert!(r.can_login && r.resp == "ok");
    assert!(!register_outcome("u".into(), 200, "ok".into()).unwrap().can_login);
    assert!(matches!(register_outcome("u".into(), 500, "x".into()), Err(EndpointError::Api(_))));
    assert_eq!(refresh_token_outcome("u".into(), 200, "tok".into()).unwrap(), "tok");
    assert!(matches!(refresh_token_outcome("u".into(), 401, "".into()), Err(EndpointError::IncorrectCredentials)));
    assert!(matches!(refresh_token_outcome("u".into(), 403, "".into()), Err(EndpointError::Api(_))));
    assert_eq!(custom_icon_outcome("u".into(), 200), Some("u".to_string()));
    assert_eq!(custom_icon_outcome("u".into(), 204), None);
}

#[test]
fn cookie_expiry() {
    let c = CookieResponse { username: "n".into(), cookie: "c".into(), expires: 100 };
    assert_eq!(cookie_outcome(c, 100).unwrap(), ("n".to_string(), "c".to_string()));
    let c = CookieResponse { username: "n".into(), cookie: "c".into(), expires: 99 };
    assert!(matches!(cookie_outcome(c, 100), Err(EndpointError::CookieExpired)));
}

#[test]
fn fetched_versions_are_checked() {
    assert_eq!(version_filenames(0x67e55044_10b1_426f_9247_bb680e5fe0c8), vec![
        "67e55044-10b1-426f-9247-bb680e5fe0c8".to_string(),
        "67e55044-10b1-426f-9247-bb680e5fe0c8.json".to_string(),
    ]);
    let v = Version { uuid: 5, name: None, asset_url: "u".into() };
    assert_eq!(check_fetched_version(Ok(v), 5).unwrap().uuid, 5);
    let v = Version { uuid: 6, name: None, asset_url: "u".into() };
    assert!(matches!(check_fetched_version(Ok(v), 5), Err(EndpointError::VersionMismatch { served: 6, requested: 5 })));
    assert!(matches!(check_fetched_version(Err("boom".into()), 5), Err(EndpointError::VersionFetch(e)) if e == "boom"));
}

#[test]
fn requests_and_account_info() {
    let r = RegisterRequest::new("u", "p", "");
    assert_eq!(r.email, None);
    let r = RegisterRequest::new("u", "p", "e@x");
    assert_eq!(r.email.as_deref(), Some("e@x"));
    let a = AuthRequest::new("u", "p");
    assert_eq!((a.username.as_str(), a.password.as_str()), ("u", "p"));
    let i = AccountInfo::from_response(AccountInfoResponse { username: "u".into(), email: "".into() });
    assert_eq!(i.email, None);
    let i = AccountInfo::from_response(AccountInfoResponse { username: "u".into(), email: "m".into() });
    assert_eq!(i.email.as_deref(), Some("m"));
}

#[test]
fn version_fetch_retries_with_json_only_after_a_failure() {
    assert_eq!(
        version_fetch_retry(0x67e55044_10b1_426f_9247_bb680e5fe0c8, true),
        Some("67e55044-10b1-426f-9247-bb680e5fe0c8.json".to_string())
    );
    assert_eq!(version_fetch_retry(0x67e55044_10b1_426f_9247_bb680e5fe0c8, false), None);
}
