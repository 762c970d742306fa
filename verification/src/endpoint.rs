//! Talking to a server's web endpoint: the requests the launcher sends, the
//! replies it reads, and what it makes of each reply's status.
use vstd::prelude::*;
use crate::ids::{hyphenated, uuid_string, Uuid};
use crate::launch::string_views;
use crate::text::{chars_of, push_all, string_from_chars};
use crate::versions::Version;

verus! {

/// What an endpoint says about its server.
#[derive(Debug)]
pub struct InfoResponse {
    pub server_name: String,
    pub api_version: String,
    pub secure_apis_enabled: bool,
    /// The one version older endpoints announce.
    pub game_version: Option<String>,
    /// The versions newer endpoints announce.
    pub game_versions: Option<Vec<String>>,
    pub login_address: String,
    pub email_required: Option<bool>,
    pub custom_loading_screen: Option<bool>,
}

/// The versions a server supports: the list it announces, else its one
/// announced version, else none.
pub open spec fn supported_versions(info: InfoResponse) -> Seq<Seq<char>> {
    match info.game_versions {
        Some(vs) => string_views(vs@),
        None => match info.game_version {
            Some(v) => seq![v@],
            None => Seq::empty(),
        },
    }
}

impl InfoResponse {
    /// The versions the server supports (see `supported_versions`).
    pub fn get_supported_versions(&self) -> (res: Vec<String>)
        ensures
            string_views(res@) == supported_versions(*self),
    {
        if let Some(versions) = &self.game_versions {
            let mut res: Vec<String> = Vec::new();
            let mut k: usize = 0;
            while k < versions.len()
                invariant
                    k <= versions.len(),
                    string_views(res@) == string_views(versions@).take(k as int),
                decreases versions.len() - k,
            {
                let ghost before = string_views(res@);
                let v = versions[k].clone();
                res.push(v);
                assert(string_views(res@) =~= before.push(v@));
                assert(string_views(versions@).take(k + 1) =~= string_views(versions@).take(k as int).push(
                    versions@[k as int]@,
                ));
                k = k + 1;
            }
            assert(string_views(versions@).take(k as int) =~= string_views(versions@));
            res
        } else if let Some(version) = &self.game_version {
            let mut res: Vec<String> = Vec::new();
            res.push(version.clone());
            assert(string_views(res@) =~= seq![version@]);
            res
        } else {
            let res: Vec<String> = Vec::new();
            assert(string_views(res@) =~= Seq::<Seq<char>>::empty());
            res
        }
    }
}

/// How many players a server has.
#[derive(Debug)]
pub struct StatusResponse {
    pub player_count: usize,
}

/// The body of a log-in request.
#[derive(Debug)]
pub struct AuthRequest {
    pub username: String,
    pub password: String,
}

impl AuthRequest {
    pub fn new(username: &str, password: &str) -> (r: Self)
        ensures
            r.username@ == username@,
            r.password@ == password@,
    {
        AuthRequest { username: String::from_str(username), password: String::from_str(password) }
    }
}

/// A game session.
#[derive(Debug)]
pub struct Session {
    pub username: String,
    pub session_token: String,
}

/// The body of a registration request.
#[derive(Debug)]
pub struct RegisterRequest {
    pub username: String,
    pub password: String,
    pub email: Option<String>,
}

impl RegisterRequest {
    /// A registration request; an empty `email` means none is given.
    pub fn new(username: &str, password: &str, email: &str) -> (r: Self)
        ensures
            r.username@ == username@,
            r.password@ == password@,
            email@.len() == 0 ==> r.email is None,
            email@.len() > 0 ==> (r.email matches Some(e) && e@ == email@),
    {
        let email_chars = chars_of(email);
        let email = if email_chars.len() == 0 {
            None
        } else {
            Some(String::from_str(email))
        };
        RegisterRequest { username: String::from_str(username), password: String::from_str(password), email }
    }
}

/// What registering an account gave: the endpoint's reply, and whether the
/// new account can log in at once.
#[derive(Debug)]
pub struct RegisterResponse {
    pub resp: String,
    pub can_login: bool,
}

/// A log-in cookie and when it expires (seconds since the Unix epoch).
#[derive(Debug)]
pub struct CookieResponse {
    pub username: String,
    pub cookie: String,
    pub expires: u64,
}

/// Account details as the endpoint sends them; an empty email means none.
#[derive(Debug)]
pub struct AccountInfoResponse {
    pub username: String,
    pub email: String,
}

/// Account details.
#[derive(Debug)]
pub struct AccountInfo {
    pub username: String,
    pub email: Option<String>,
}

impl AccountInfo {
    /// The account details of a reply; an empty email means none.
    pub fn from_response(info: AccountInfoResponse) -> (r: Self)
        ensures
            r.username == info.username,
            info.email@.len() == 0 ==> r.email is None,
            info.email@.len() > 0 ==> r.email == Some(info.email),
    {
        let e = chars_of(info.email.as_str());
        AccountInfo {
            username: info.username,
            email: if e.len() == 0 {
                None
            } else {
                Some(info.email)
            },
        }
    }
}

/// The body of a request to change the account's email.
#[derive(Debug)]
pub struct EmailUpdateRequest {
    pub new_email: String,
}

/// The body of a request to change the account's password.
#[derive(Debug)]
pub struct PasswordUpdateRequest {
    pub new_password: String,
}

/// A reply of the endpoint whose status is not a success.
#[derive(Debug)]
pub struct ApiError {
    pub url: String,
    pub status: u16,
    pub body: String,
}

/// Why a call to the endpoint failed.
#[derive(Debug)]
pub enum EndpointError {
    /// The endpoint answered with a status that is not a success.
    Api(ApiError),
    /// The endpoint refused the user name and password.
    IncorrectCredentials,
    /// The cookie has already expired (the system clock may be wrong).
    CookieExpired,
    /// The endpoint served a version other than the one asked for.
    VersionMismatch { served: Uuid, requested: Uuid },
    /// Fetching the version failed, for the reason given.
    VersionFetch(String),
}

/// A status from 200 to 299.
pub open spec fn is_success(status: u16) -> bool {
    200 <= status && status <= 299
}

pub const STATUS_OK: u16 = 200;
pub const STATUS_CREATED: u16 = 201;
pub const STATUS_UNAUTHORIZED: u16 = 401;

/// The body of a successful reply, or the error for any other status.
pub fn check_status(url: String, status: u16, body: String) -> (res: Result<String, EndpointError>)
    ensures
        is_success(status) ==> res == Ok::<String, EndpointError>(body),
        !is_success(status) ==> res == Err::<String, EndpointError>(
            EndpointError::Api(ApiError { url, status, body }),
        ),
{
    if 200 <= status && status <= 299 {
        Ok(body)
    } else {
        Err(EndpointError::Api(ApiError { url, status, body }))
    }
}

/// What a registration reply means: on success, the reply and whether the
/// account was created ready to log in (status 201); otherwise the error.
pub fn register_outcome(url: String, status: u16, body: String) -> (res: Result<RegisterResponse, EndpointError>)
    ensures
        is_success(status) ==> (res matches Ok(r) && r.resp == body && r.can_login == (status == 201)),
        !is_success(status) ==> res == Err::<RegisterResponse, EndpointError>(
            EndpointError::Api(ApiError { url, status, body }),
        ),
{
    if 200 <= status && status <= 299 {
        Ok(RegisterResponse { resp: body, can_login: status == STATUS_CREATED })
    } else {
        Err(EndpointError::Api(ApiError { url, status, body }))
    }
}

/// What a log-in reply means: on success its body is the refresh token; a
/// 401 means wrong credentials; any other status is an error.
pub fn refresh_token_outcome(url: String, status: u16, body: String) -> (res: Result<String, EndpointError>)
    ensures
        is_success(status) ==> res == Ok::<String, EndpointError>(body),
        status == 401 ==> res == Err::<String, EndpointError>(EndpointError::IncorrectCredentials),
        !is_success(status) && status != 401 ==> res == Err::<String, EndpointError>(
            EndpointError::Api(ApiError { url, status, body }),
        ),
{
    if 200 <= status && status <= 299 {
        Ok(body)
    } else if status == STATUS_UNAUTHORIZED {
        Err(EndpointError::IncorrectCredentials)
    } else {
        Err(EndpointError::Api(ApiError { url, status, body }))
    }
}

/// The custom icon's URL when the endpoint answered 200 to asking for it, else none.
pub fn custom_icon_outcome(url: String, status: u16) -> (res: Option<String>)
    ensures
        status == 200 ==> res == Some(url),
        status != 200 ==> res is None,
{
    if status == STATUS_OK {
        Some(url)
    } else {
        None
    }
}

/// The user name and cookie of a cookie reply, unless the cookie expired
/// before `time_now` (seconds since the Unix epoch).
pub fn cookie_outcome(cookie: CookieResponse, time_now: u64) -> (res: Result<(String, String), EndpointError>)
    ensures
        cookie.expires < time_now ==> res matches Err(EndpointError::CookieExpired),
        cookie.expires >= time_now ==> res == Ok::<(String, String), EndpointError>(
            (cookie.username, cookie.cookie),
        ),
{
    if cookie.expires < time_now {
        return Err(EndpointError::CookieExpired);
    }
    Ok((cookie.username, cookie.cookie))
}

/// The file names under which an endpoint may serve the version `uuid`, in
/// the order they are tried: the hyphenated UUID, then the same with `.json`.
pub fn version_filenames(uuid: Uuid) -> (names: Vec<String>)
    ensures
        string_views(names@) == seq![hyphenated(uuid), hyphenated(uuid) + ".json"@],
{
    let plain = uuid_string(uuid);
    let mut with_ext = chars_of(plain.as_str());
    let ext = chars_of(".json");
    push_all(&mut with_ext, &ext);
    let mut names: Vec<String> = Vec::new();
    names.push(plain);
    names.push(string_from_chars(&with_ext));
    assert(string_views(names@) =~= seq![hyphenated(uuid), hyphenated(uuid) + ".json"@]);
    names
}

/// The file name to fetch the version `uuid` under next: where the first
/// attempt, under its hyphenated UUID, failed, the same name with `.json`;
/// otherwise none.
pub fn version_fetch_retry(uuid: Uuid, first_failed: bool) -> (next: Option<String>)
    ensures
        first_failed ==> (next matches Some(n) && n@ == hyphenated(uuid) + ".json"@),
        !first_failed ==> next is None,
{
    if first_failed {
        let plain = uuid_string(uuid);
        let mut with_ext = chars_of(plain.as_str());
        let ext = chars_of(".json");
        push_all(&mut with_ext, &ext);
        Some(string_from_chars(&with_ext))
    } else {
        None
    }
}

/// The version fetched for `requested`, unless fetching failed or the
/// endpoint served another version.
pub fn check_fetched_version(fetched: Result<Version, String>, requested: Uuid) -> (res: Result<Version, EndpointError>)
    ensures
        match fetched {
            Ok(v) => if v.uuid == requested {
                res == Ok::<Version, EndpointError>(v)
            } else {
                res == Err::<Version, EndpointError>(
                    EndpointError::VersionMismatch { served: v.uuid, requested },
                )
            },
            Err(e) => res == Err::<Version, EndpointError>(EndpointError::VersionFetch(e)),
        },
{
    match fetched {
        Ok(v) => {
            if v.uuid != requested {
                return Err(EndpointError::VersionMismatch { served: v.uuid, requested });
            }
            Ok(v)
        },
        Err(e) => Err(EndpointError::VersionFetch(e)),
    }
}

/// The resources of an endpoint the launcher asks for.
#[derive(Debug)]
pub enum Route {
    Info,
    Announcements,
    Status,
    Icon,
    Register,
    Auth,
    Session,
    Account,
    Cookie,
    /// A version's manifest, under the given file name.
    Version(String),
    Otp,
    UpdateEmail,
    UpdatePassword,
}

/// Where on an endpoint each resource is.
pub open spec fn route_path(route: Route) -> Seq<char> {
    match route {
        Route::Info => ""@,
        Route::Announcements => "/announcements.md"@,
        Route::Status => "/status"@,
        Route::Icon => "/launcher/icon.ico"@,
        Route::Register => "/account/register"@,
        Route::Auth => "/auth"@,
        Route::Session => "/auth/session"@,
        Route::Account => "/account"@,
        Route::Cookie => "/cookie"@,
        Route::Version(f) => "/versions/"@ + f@,
        Route::Otp => "/account/otp"@,
        Route::UpdateEmail => "/account/update/email"@,
        Route::UpdatePassword => "/account/update/password"@,
    }
}

/// Each resource sits at its fixed path on the endpoint: the server's
/// information at the root, then `/announcements.md`, `/status`,
/// `/launcher/icon.ico`, `/account/register`, `/auth`, `/auth/session`,
/// `/account`, `/cookie`, `/versions/` with the file name, `/account/otp`,
/// `/account/update/email` and `/account/update/password`.
pub proof fn lemma_route_paths(file: String)
    ensures
        route_path(Route::Info) == ""@,
        route_path(Route::Announcements) == "/announcements.md"@,
        route_path(Route::Status) == "/status"@,
        route_path(Route::Icon) == "/launcher/icon.ico"@,
        route_path(Route::Register) == "/account/register"@,
        route_path(Route::Auth) == "/auth"@,
        route_path(Route::Session) == "/auth/session"@,
        route_path(Route::Account) == "/account"@,
        route_path(Route::Cookie) == "/cookie"@,
        route_path(Route::Version(file)) == "/versions/"@ + file@,
        route_path(Route::Otp) == "/account/otp"@,
        route_path(Route::UpdateEmail) == "/account/update/email"@,
        route_path(Route::UpdatePassword) == "/account/update/password"@,
{
}

/// The HTTPS URL of `route` on the endpoint `host`.
pub fn route_url(host: &str, route: &Route) -> (url: String)
    ensures
        url@ == "https://"@ + host@ + route_path(*route),
{
    let path: &str = match route {
        Route::Info => "",
        Route::Announcements => "/announcements.md",
        Route::Status => "/status",
        Route::Icon => "/launcher/icon.ico",
        Route::Register => "/account/register",
        Route::Auth => "/auth",
        Route::Session => "/auth/session",
        Route::Account => "/account",
        Route::Cookie => "/cookie",
        Route::Version(_) => "/versions/",
        Route::Otp => "/account/otp",
        Route::UpdateEmail => "/account/update/email",
        Route::UpdatePassword => "/account/update/password",
    };
    let mut out = chars_of("https://");
    let h = chars_of(host);
    push_all(&mut out, &h);
    let p = chars_of(path);
    push_all(&mut out, &p);
    if let Route::Version(f) = route {
        let fc = chars_of(f.as_str());
        push_all(&mut out, &fc);
    }
    assert(out@ =~= "https://"@ + host@ + route_path(*route));
    string_from_chars(&out)
}

} // verus!
