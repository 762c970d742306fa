//! Small rules of the launcher: version numbers, server addresses, the
//! environment of the game, file URIs and cache progress.
use vstd::prelude::*;
use std::collections::HashMap;
use crate::ids::{hyphenated, uuid_string, Uuid};
use crate::launch::string_views;
use crate::seqs::{first_index, lemma_first_index_at, lemma_first_index_none};
use crate::text::{
    chars_of, decimal, decimal_string, lemma_count_char_two, lemma_parse_decimal, lemma_split_on_joined,
    lemma_split_on_len, lemma_split_on_none, parse_unsigned,
    parse_unsigned_chars, push_all, split_chars, split_on, string_from_chars, views_of,
};

verus! {

/// Always `true` (a default for settings that are on unless set).
pub fn true_fn() -> (b: bool)
    ensures
        b,
{
    true
}

/// Always `false` (a default for settings that are off unless set).
pub fn false_fn() -> (b: bool)
    ensures
        !b,
{
    false
}

/// The number of a `major.minor.patch` version string: each part read as an
/// unsigned number, a missing minor or patch counting as 0, packed as
/// `major << 16 | minor << 8 | patch` in 32 bits (bits shifted out are lost,
/// and parts wider than their field overlap). Parts after the third are ignored.
pub open spec fn version_number(major: u32, minor: u32, patch: u32) -> u32 {
    (major << 16u32) | (minor << 8u32) | patch
}

/// The first three parts of a version string are numbers (where present).
pub open spec fn version_parts_readable(version: Seq<char>) -> bool {
    let parts = split_on(version, '.');
    &&& parse_unsigned(parts[0], u32::MAX as nat) is Some
    &&& parts.len() > 1 ==> parse_unsigned(parts[1], u32::MAX as nat) is Some
    &&& parts.len() > 2 ==> parse_unsigned(parts[2], u32::MAX as nat) is Some
}

/// The value of the `k`-th part of a version string, 0 where it is missing.
pub open spec fn version_part(version: Seq<char>, k: int) -> u32 {
    let parts = split_on(version, '.');
    if k < parts.len() {
        parse_unsigned(parts[k], u32::MAX as nat).unwrap() as u32
    } else {
        0
    }
}

/// The number of a `major.minor.patch` version string (see `version_number`).
pub fn string_version_to_u32(version: &str) -> (n: u32)
    requires
        version_parts_readable(version@),
    ensures
        n == version_number(version_part(version@, 0), version_part(version@, 1), version_part(version@, 2)),
{
    let cs = chars_of(version);
    let parts = split_chars(&cs, '.');
    assert(parts@[0]@ == views_of(parts@)[0]);
    let major = parse_unsigned_chars(&parts[0], 0xffff_ffff).unwrap() as u32;
    let minor: u32 = if parts.len() > 1 {
        assert(parts@[1]@ == views_of(parts@)[1]);
        parse_unsigned_chars(&parts[1], 0xffff_ffff).unwrap() as u32
    } else {
        0
    };
    let patch: u32 = if parts.len() > 2 {
        assert(parts@[2]@ == views_of(parts@)[2]);
        parse_unsigned_chars(&parts[2], 0xffff_ffff).unwrap() as u32
    } else {
        0
    };
    (major << 16u32) | (minor << 8u32) | patch
}

/// The major, minor and patch parts of a version string (see `version_part`).
pub open spec fn version_triple(version: Seq<char>) -> (u32, u32, u32) {
    (version_part(version, 0), version_part(version, 1), version_part(version, 2))
}

/// Each part fits its field: major below 65536, minor and patch below 256.
pub open spec fn parts_fit(t: (u32, u32, u32)) -> bool {
    t.0 < 65536 && t.1 < 256 && t.2 < 256
}

/// `a` comes before `b`, part by part.
pub open spec fn triple_lt(a: (u32, u32, u32), b: (u32, u32, u32)) -> bool {
    a.0 < b.0 || (a.0 == b.0 && (a.1 < b.1 || (a.1 == b.1 && a.2 < b.2)))
}

proof fn lemma_version_number_value(major: u32, minor: u32, patch: u32)
    requires
        major < 65536,
        minor < 256,
        patch < 256,
    ensures
        version_number(major, minor, patch) == major * 65536 + minor * 256 + patch,
{
    assert(major < 65536 && minor < 256 && patch < 256 ==> (major << 16u32) | (minor << 8u32) | patch
        == major * 65536 + minor * 256 + patch) by (bit_vector);
}

/// Where every part fits its field, version numbers order version strings as
/// their parts do, and two version strings get the same number exactly when
/// their parts are the same (a missing part counting as 0, so that `1`,
/// `1.0` and `1.0.0` get the same number).
pub proof fn lemma_version_number_order(a: Seq<char>, b: Seq<char>)
    requires
        version_parts_readable(a),
        version_parts_readable(b),
        parts_fit(version_triple(a)),
        parts_fit(version_triple(b)),
    ensures
        ({
            let (ta, tb) = (version_triple(a), version_triple(b));
            &&& (version_number(ta.0, ta.1, ta.2) < version_number(tb.0, tb.1, tb.2)) == triple_lt(ta, tb)
            &&& (version_number(ta.0, ta.1, ta.2) == version_number(tb.0, tb.1, tb.2)) == (ta == tb)
        }),
{
    let (ta, tb) = (version_triple(a), version_triple(b));
    lemma_version_number_value(ta.0, ta.1, ta.2);
    lemma_version_number_value(tb.0, tb.1, tb.2);
}

/// The port a game server address without one uses.
pub const DEFAULT_PORT: u16 = 23000;

/// Why a server address could not be used.
#[derive(Debug, PartialEq, Eq, Structural)]
pub enum AddrError {
    /// The part after `:` is not a port number.
    InvalidPort,
    /// The host name could not be resolved to an IPv4 address.
    Unresolved,
}

/// The host of `host:port` (all before the first `:`), and its port: the
/// number between the first and a second `:`, or the default port where
/// there is no `:`. `None` where that part is not a port number.
pub open spec fn addr_port(s: Seq<char>) -> Option<(Seq<char>, u16)> {
    let parts = split_on(s, ':');
    if parts.len() >= 2 {
        match parse_unsigned(parts[1], u16::MAX as nat) {
            Some(p) => Some((parts[0], p as u16)),
            None => None,
        }
    } else {
        Some((parts[0], DEFAULT_PORT))
    }
}

/// Splits `host:port` into host and port (see `addr_port`).
pub fn split_addr_port(addr_port_str: &str) -> (res: Result<(String, u16), AddrError>)
    ensures
        match addr_port(addr_port_str@) {
            Some((host, port)) => res matches Ok((h, p)) && h@ == host && p == port,
            None => res == Err::<(String, u16), AddrError>(AddrError::InvalidPort),
        },
{
    let cs = chars_of(addr_port_str);
    let parts = split_chars(&cs, ':');
    assert(parts@[0]@ == views_of(parts@)[0]);
    let addr = string_from_chars(&parts[0]);
    if parts.len() >= 2 {
        assert(parts@[1]@ == views_of(parts@)[1]);
        match parse_unsigned_chars(&parts[1], 65535) {
            Some(p) => Ok((addr, p as u16)),
            None => Err(AddrError::InvalidPort),
        }
    } else {
        Ok((addr, DEFAULT_PORT))
    }
}

/// A host without `:`, with a port after `:`, splits back into that host
/// and port; without a port, into the host and the default port.
pub proof fn lemma_addr_port_round_trip(host: Seq<char>, port: u16)
    requires
        !host.contains(':'),
    ensures
        addr_port(host + seq![':'] + decimal(port as nat)) == Some((host, port)),
        addr_port(host) == Some((host, DEFAULT_PORT)),
{
    lemma_parse_decimal(port as nat, u16::MAX as nat);
    let d = decimal(port as nat);
    assert(!d.contains(':')) by {
        crate::text::lemma_decimal_reads_back(port as nat);
        if d.contains(':') {
            let k = choose|k: int| 0 <= k < d.len() && d[k] == ':';
            assert(crate::text::is_ascii_digit(d[k]));
        }
    }
    lemma_split_on_joined(host, ':', d);
    lemma_split_on_none(host, ':');
    assert(split_on(host + seq![':'] + d, ':') == seq![host, d]);
}

/// `ip:port`.
pub open spec fn join_addr_port(ip: Seq<char>, port: u16) -> Seq<char> {
    ip + seq![':'] + decimal(port as nat)
}

/// The address to connect to for the game server `addr` (`host` or
/// `host:port`). Where the host is already an IP address (`host_is_ip`),
/// `addr` itself; otherwise the IPv4 address the host resolved to
/// (`resolved`, `None` where it did not resolve) with the port. Fails where
/// the port is not a number or the host did not resolve.
pub fn resolve_server_addr(addr: &str, host_is_ip: bool, resolved: Option<String>) -> (res: Result<String, AddrError>)
    ensures
        match addr_port(addr@) {
            None => res == Err::<String, AddrError>(AddrError::InvalidPort),
            Some((_, port)) => if host_is_ip {
                res matches Ok(a) && a@ == addr@
            } else {
                match resolved {
                    Some(ip) => res matches Ok(a) && a@ == join_addr_port(ip@, port),
                    None => res == Err::<String, AddrError>(AddrError::Unresolved),
                }
            },
        },
{
    let (_host, port) = match split_addr_port(addr) {
        Ok(hp) => hp,
        Err(e) => {
            return Err(e);
        },
    };
    if host_is_ip {
        return Ok(String::from_str(addr));
    }
    match resolved {
        Some(ip) => {
            let mut out = chars_of(ip.as_str());
            out.push(':');
            let p = decimal_string(port as u64);
            let pc = chars_of(p.as_str());
            push_all(&mut out, &pc);
            assert(out@ =~= join_addr_port(ip@, port));
            Ok(string_from_chars(&out))
        },
        None => Err(AddrError::Unresolved),
    }
}

/// An address a host name resolved to.
#[derive(Debug, Clone, Copy, PartialEq, Eq, Structural)]
pub enum IpAddress {
    V4(u8, u8, u8, u8),
    V6,
}

/// An IPv4 address in dotted decimal form.
pub open spec fn dotted(a: u8, b: u8, c: u8, d: u8) -> Seq<char> {
    decimal(a as nat) + seq!['.'] + decimal(b as nat) + seq!['.'] + decimal(c as nat) + seq!['.']
        + decimal(d as nat)
}

/// The first IPv4 address among `addrs`, in dotted decimal form.
pub fn first_ipv4(addrs: &Vec<IpAddress>) -> (res: Option<String>)
    ensures
        match res {
            Some(s) => exists|k: int|
                0 <= k < addrs@.len() && (forall|m: int| 0 <= m < k ==> addrs@[m] is V6) && (
                #[trigger] addrs@[k] matches IpAddress::V4(a, b, c, d) && s@ == dotted(a, b, c, d)),
            None => forall|m: int| 0 <= m < addrs@.len() ==> #[trigger] addrs@[m] is V6,
        },
{
    let mut k: usize = 0;
    while k < addrs.len()
        invariant
            k <= addrs.len(),
            forall|m: int| 0 <= m < k ==> addrs@[m] is V6,
        decreases addrs.len() - k,
    {
        match addrs[k] {
            IpAddress::V4(a, b, c, d) => {
                let mut out: Vec<char> = Vec::new();
                let s0 = decimal_string(a as u64);
                let c0 = chars_of(s0.as_str());
                push_all(&mut out, &c0);
                out.push('.');
                let s1 = decimal_string(b as u64);
                let c1 = chars_of(s1.as_str());
                push_all(&mut out, &c1);
                out.push('.');
                let s2 = decimal_string(c as u64);
                let c2 = chars_of(s2.as_str());
                push_all(&mut out, &c2);
                out.push('.');
                let s3 = decimal_string(d as u64);
                let c3 = chars_of(s3.as_str());
                push_all(&mut out, &c3);
                assert(out@ =~= dotted(a, b, c, d));
                return Some(string_from_chars(&out));
            },
            IpAddress::V6 => {},
        }
        k = k + 1;
    }
    None
}

/// Whether a command's environment entry sets `var` to something non-empty.
pub open spec fn sets_nonempty(var: Seq<char>) -> spec_fn((Seq<char>, Option<Seq<char>>)) -> bool {
    |e: (Seq<char>, Option<Seq<char>>)| e.0 == var && (e.1 matches Some(v) && v.len() > 0)
}

/// A variable's value, if it is set to something non-empty: first among the
/// variables set on the command (`cmd_envs`, where `None` marks a variable
/// the command removes), then in the process environment (`process_value`).
pub open spec fn env_var_value_of(
    cmd_envs: Seq<(Seq<char>, Option<Seq<char>>)>,
    var: Seq<char>,
    process_value: Option<Seq<char>>,
) -> Option<Seq<char>> {
    match first_index(cmd_envs, sets_nonempty(var)) {
        Some(k) => cmd_envs[k].1,
        None => match process_value {
            Some(v) => if v.len() > 0 {
                Some(v)
            } else {
                None
            },
            None => None,
        },
    }
}

/// The views of a command's environment entries.
pub open spec fn cmd_env_views(v: Seq<(String, Option<String>)>) -> Seq<(Seq<char>, Option<Seq<char>>)> {
    v.map_values(|e: (String, Option<String>)| (e.0@, opt_view(e.1)))
}

/// The view of an optional string.
pub open spec fn opt_view(o: Option<String>) -> Option<Seq<char>> {
    match o {
        Some(s) => Some(s@),
        None => None,
    }
}

/// A variable's value, if set to something non-empty (see `env_var_value_of`).
pub fn get_env_var_value(
    cmd_envs: &Vec<(String, Option<String>)>,
    var: &str,
    process_value: Option<String>,
) -> (res: Option<String>)
    ensures
        opt_view(res) == env_var_value_of(cmd_env_views(cmd_envs@), var@, opt_view(process_value)),
{
    let ghost ev = cmd_env_views(cmd_envs@);
    let target = chars_of(var);
    let mut k: usize = 0;
    while k < cmd_envs.len()
        invariant
            k <= cmd_envs.len(),
            ev == cmd_env_views(cmd_envs@),
            target@ == var@,
            forall|m: int| 0 <= m < k ==> !sets_nonempty(var@)(ev[m]),
        decreases cmd_envs.len() - k,
    {
        let key = chars_of(cmd_envs[k].0.as_str());
        if let Some(value) = &cmd_envs[k].1 {
            let vc = chars_of(value.as_str());
            if chars_eq(&key, &target) && vc.len() > 0 {
                assert(ev[k as int] == (cmd_envs@[k as int].0@, opt_view(cmd_envs@[k as int].1)));
                proof {
                    lemma_first_index_at(ev, sets_nonempty(var@), k as int);
                }
                return Some(value.clone());
            }
        }
        assert(ev[k as int] == (cmd_envs@[k as int].0@, opt_view(cmd_envs@[k as int].1)));
        k = k + 1;
    }
    proof {
        lemma_first_index_none(ev, sets_nonempty(var@));
    }
    match process_value {
        Some(v) => {
            let vc = chars_of(v.as_str());
            if vc.len() > 0 {
                Some(v)
            } else {
                None
            }
        },
        None => None,
    }
}

fn chars_eq(a: &Vec<char>, b: &Vec<char>) -> (res: bool)
    ensures
        res == (a@ == b@),
{
    if a.len() != b.len() {
        assert(a@.len() != b@.len());
        return false;
    }
    let mut k: usize = 0;
    while k < a.len()
        invariant
            k <= a.len() == b.len(),
            forall|m: int| 0 <= m < k ==> a@[m] == b@[m],
        decreases a.len() - k,
    {
        if a[k] != b[k] {
            assert(a@[k as int] != b@[k as int]);
            return false;
        }
        k = k + 1;
    }
    assert(a@ =~= b@);
    true
}

/// The Wine prefix the game runs in, if any: never on Windows; otherwise
/// where `STEAM_COMPAT_DATA_PATH` points, else where `WINEPREFIX` points (each
/// looked up as `get_env_var_value` does, with its value in the process
/// environment given).
pub open spec fn compat_data_dir_of(
    windows: bool,
    cmd_envs: Seq<(Seq<char>, Option<Seq<char>>)>,
    process_steam_compat: Option<Seq<char>>,
    process_wineprefix: Option<Seq<char>>,
) -> Option<Seq<char>> {
    if windows {
        None
    } else {
        match env_var_value_of(cmd_envs, "STEAM_COMPAT_DATA_PATH"@, process_steam_compat) {
            Some(p) => Some(p),
            None => env_var_value_of(cmd_envs, "WINEPREFIX"@, process_wineprefix),
        }
    }
}

/// The Wine prefix the game runs in, if any (see `compat_data_dir_of`).
pub fn get_compat_data_dir(
    windows: bool,
    cmd_envs: &Vec<(String, Option<String>)>,
    process_steam_compat: Option<String>,
    process_wineprefix: Option<String>,
) -> (res: Option<String>)
    ensures
        opt_view(res) == compat_data_dir_of(
            windows,
            cmd_env_views(cmd_envs@),
            opt_view(process_steam_compat),
            opt_view(process_wineprefix),
        ),
{
    if windows {
        return None;
    }
    if let Some(path) = get_env_var_value(cmd_envs, "STEAM_COMPAT_DATA_PATH", process_steam_compat) {
        return Some(path);
    }
    if let Some(path) = get_env_var_value(cmd_envs, "WINEPREFIX", process_wineprefix) {
        return Some(path);
    }
    None
}

/// `s` with the suffix `suffix` removed as many times as it ends with it (std's
/// `trim_end_matches` with a string pattern).
pub open spec fn trim_end_matches(s: Seq<char>, suffix: Seq<char>) -> Seq<char>
    decreases s.len(),
{
    if suffix.len() > 0 && s.len() >= suffix.len() && s.subrange(s.len() - suffix.len(), s.len() as int) == suffix {
        trim_end_matches(s.subrange(0, s.len() - suffix.len()), suffix)
    } else {
        s
    }
}

fn trim_app_suffix(s: &Vec<char>) -> (res: Vec<char>)
    ensures
        res@ == trim_end_matches(s@, ".app"@),
{
    proof {
        reveal_strlit(".app");
    }
    let mut end: usize = s.len();
    assert(s@.subrange(0, end as int) =~= s@);
    while end >= 4 && s[end - 4] == '.' && s[end - 3] == 'a' && s[end - 2] == 'p' && s[end - 1] == 'p'
        invariant
            end <= s.len(),
            ".app"@ == seq!['.', 'a', 'p', 'p'],
            trim_end_matches(s@, ".app"@) == trim_end_matches(s@.subrange(0, end as int), ".app"@),
        decreases end,
    {
        assert(s@.subrange(0, end as int).subrange(end - 4, end as int) =~= ".app"@);
        assert(s@.subrange(0, end as int).subrange(0, end - 4) =~= s@.subrange(0, end - 4));
        end = end - 4;
    }
    let ghost t = s@.subrange(0, end as int);
    assert(!(t.len() >= 4 && t.subrange(t.len() - 4, t.len() as int) == ".app"@)) by {
        if t.len() >= 4 && t.subrange(t.len() - 4, t.len() as int) == ".app"@ {
            assert(t.subrange(t.len() - 4, t.len() as int)[0] == '.');
            assert(t.subrange(t.len() - 4, t.len() as int)[1] == 'a');
            assert(t.subrange(t.len() - 4, t.len() as int)[2] == 'p');
            assert(t.subrange(t.len() - 4, t.len() as int)[3] == 'p');
        }
    }
    crate::text::slice_chars(s, 0, end)
}

/// The name of a macOS Wine install: the third `/`-separated part of its
/// path (the application bundle) without its `.app` ending.
pub open spec fn wine_app_name_of(path: Seq<char>) -> Seq<char> {
    trim_end_matches(split_on(path, '/')[2], ".app"@)
}

/// The name of the macOS Wine install at `path` (see `wine_app_name_of`); the
/// path has at least three `/`-separated parts.
pub fn wine_app_name(path: &str) -> (name: String)
    requires
        split_on(path@, '/').len() >= 3,
    ensures
        name@ == wine_app_name_of(path@),
{
    let cs = chars_of(path);
    let parts = split_chars(&cs, '/');
    assert(parts@[2]@ == views_of(parts@)[2]);
    let t = trim_app_suffix(&parts[2]);
    string_from_chars(&t)
}

/// Where macOS Wine installs are looked for, in order of preference.
pub open spec fn macos_wine_candidate_paths() -> Seq<Seq<char>> {
    seq![
        "/Applications/CrossOver.app/Contents/SharedSupport/CrossOver/CrossOver-Hosted Application/wineloader"@,
        "/Applications/Wine Crossover.app/Contents/Resources/wine/bin/wine"@,
        "/Applications/Wine Stable.app/Contents/Resources/wine/bin/wine"@,
        "/Applications/Wine Devel.app/Contents/Resources/wine/bin/wine"@,
        "/Applications/Wine Staging.app/Contents/Resources/wine/bin/wine"@,
    ]
}

/// A path that starts with `/Applications/`.
proof fn lemma_applications_path(path: Seq<char>)
    requires
        path.len() > 13,
        path[0] == '/',
        path[13] == '/',
    ensures
        split_on(path, '/').len() >= 3,
{
    lemma_count_char_two(path, '/', 0, 13);
    lemma_split_on_len(path, '/');
}

/// Where macOS Wine installs are looked for, in order of preference (see
/// `macos_wine_candidate_paths`).
pub fn macos_wine_candidates() -> (paths: Vec<String>)
    ensures
        string_views(paths@) == macos_wine_candidate_paths(),
{
    let mut paths: Vec<String> = Vec::new();
    paths.push(String::from_str(
        "/Applications/CrossOver.app/Contents/SharedSupport/CrossOver/CrossOver-Hosted Application/wineloader",
    ));
    paths.push(String::from_str("/Applications/Wine Crossover.app/Contents/Resources/wine/bin/wine"));
    paths.push(String::from_str("/Applications/Wine Stable.app/Contents/Resources/wine/bin/wine"));
    paths.push(String::from_str("/Applications/Wine Devel.app/Contents/Resources/wine/bin/wine"));
    paths.push(String::from_str("/Applications/Wine Staging.app/Contents/Resources/wine/bin/wine"));
    assert(string_views(paths@) =~= macos_wine_candidate_paths());
    paths
}

/// Whether `entry` is the install found at the `j`-th candidate: its name
/// (see `wine_app_name_of`) and its path.
pub open spec fn is_install_at(entry: (String, String), j: int) -> bool {
    &&& 0 <= j < 5
    &&& entry.1@ == macos_wine_candidate_paths()[j]
    &&& entry.0@ == wine_app_name_of(macos_wine_candidate_paths()[j])
}

/// `installs` are the installs at the candidates `idx`, which are those
/// that exist, in order.
pub open spec fn installs_found(installs: Seq<(String, String)>, exists: Seq<bool>, idx: Seq<int>) -> bool {
    &&& idx.len() == installs.len()
    &&& forall|m: int| 0 <= m < idx.len() ==> is_install_at(installs[m], #[trigger] idx[m]) && exists[idx[m]]
    &&& forall|m: int, n: int| 0 <= m < n < idx.len() ==> idx[m] < idx[n]
    &&& forall|j: int| 0 <= j < 5 && #[trigger] exists[j] ==> idx.contains(j)
}

/// The installs among the macOS Wine candidates that exist (`exists[k]`
/// tells whether the `k`-th candidate does), in order of preference, each
/// as its name and its path.
pub fn find_macos_wine_installs(exists: &Vec<bool>) -> (installs: Vec<(String, String)>)
    requires
        exists@.len() == 5,
    ensures
        exists|idx: Seq<int>| #[trigger] installs_found(installs@, exists@, idx),
{
    let candidates = macos_wine_candidates();
    proof {
        reveal_strlit("/Applications/CrossOver.app/Contents/SharedSupport/CrossOver/CrossOver-Hosted Application/wineloader");
        reveal_strlit("/Applications/Wine Crossover.app/Contents/Resources/wine/bin/wine");
        reveal_strlit("/Applications/Wine Stable.app/Contents/Resources/wine/bin/wine");
        reveal_strlit("/Applications/Wine Devel.app/Contents/Resources/wine/bin/wine");
        reveal_strlit("/Applications/Wine Staging.app/Contents/Resources/wine/bin/wine");
        assert forall|j: int| 0 <= j < 5 implies split_on(#[trigger] macos_wine_candidate_paths()[j], '/').len() >= 3 by {
            lemma_applications_path(macos_wine_candidate_paths()[j]);
        }
    }
    assert(string_views(candidates@).len() == candidates@.len());
    let mut installs: Vec<(String, String)> = Vec::new();
    let ghost mut idx: Seq<int> = Seq::empty();
    let mut k: usize = 0;
    while k < 5
        invariant
            k <= 5,
            exists@.len() == 5,
            string_views(candidates@) == macos_wine_candidate_paths(),
            candidates@.len() == 5,
            forall|j: int| 0 <= j < 5 ==> split_on(#[trigger] macos_wine_candidate_paths()[j], '/').len() >= 3,
            idx.len() == installs@.len(),
            forall|m: int| 0 <= m < idx.len() ==> is_install_at(installs@[m], #[trigger] idx[m]) && exists@[idx[m]] && idx[m] < k,
            forall|m: int, n: int| 0 <= m < n < idx.len() ==> idx[m] < idx[n],
            forall|j: int| 0 <= j < k && #[trigger] exists@[j] ==> idx.contains(j),
        decreases 5 - k,
    {
        if exists[k] {
            assert(string_views(candidates@)[k as int] == candidates@[k as int]@);
            let path = candidates[k].clone();
            let name = wine_app_name(path.as_str());
            let ghost before = installs@;
            let ghost idx_before = idx;
            installs.push((name, path));
            proof {
                idx = idx.push(k as int);
                assert(idx[idx.len() - 1] == k);
                assert forall|m: int| 0 <= m < idx.len() implies is_install_at(installs@[m], #[trigger] idx[m]) && exists@[idx[m]] && idx[m] < k + 1 by {
                    if m < idx_before.len() {
                        assert(installs@[m] == before[m]);
                        assert(idx[m] == idx_before[m]);
                    }
                }
                assert forall|j: int| 0 <= j < k + 1 && #[trigger] exists@[j] implies idx.contains(j) by {
                    if j < k {
                        let m = choose|m: int| 0 <= m < idx_before.len() && idx_before[m] == j;
                        assert(idx[m] == j);
                    } else {
                        assert(idx[idx.len() - 1] == j);
                    }
                }
            }
        }
        k = k + 1;
    }
    assert(installs_found(installs@, exists@, idx));
    installs
}

/// The `file://` URI of `path` (`file:///` on Windows), with every
/// backslash turned into a slash.
pub open spec fn file_uri(path: Seq<char>, windows: bool) -> Seq<char> {
    let uri = (if windows { "file:///"@ } else { "file://"@ }) + path;
    uri.map_values(|c: char| if c == '\\' { '/' } else { c })
}

/// The `file://` URI of `path` (see `file_uri`).
pub fn get_path_as_file_uri(path: &str, windows: bool) -> (uri: String)
    ensures
        uri@ == file_uri(path@, windows),
{
    let protocol = if windows { "file:///" } else { "file://" };
    let mut cs = chars_of(protocol);
    let p = chars_of(path);
    push_all(&mut cs, &p);
    let ghost whole = cs@;
    assert(whole == (if windows { "file:///"@ } else { "file://"@ }) + path@);
    let mut out: Vec<char> = Vec::new();
    let mut k: usize = 0;
    while k < cs.len()
        invariant
            k <= cs.len(),
            cs@ == whole,
            out@ == whole.take(k as int).map_values(|c: char| if c == '\\' { '/' } else { c }),
        decreases cs.len() - k,
    {
        let c = cs[k];
        out.push(if c == '\\' { '/' } else { c });
        assert(out@ =~= whole.take(k + 1).map_values(|c: char| if c == '\\' { '/' } else { c }));
        k = k + 1;
    }
    assert(whole.take(k as int) =~= whole);
    string_from_chars(&out)
}

/// The file a version is saved in: the name it was read from, or else its
/// hyphenated UUID followed by `.json`.
pub fn version_file_name(uuid: Uuid, filenames: &HashMap<Uuid, String>) -> (name: String)
    ensures
        filenames@.contains_key(uuid) ==> name@ == filenames@[uuid]@,
        !filenames@.contains_key(uuid) ==> name@ == hyphenated(uuid) + ".json"@,
{
    match filenames.get(&uuid) {
        Some(f) => f.clone(),
        None => {
            let u = uuid_string(uuid);
            let mut cs = chars_of(u.as_str());
            let ext = chars_of(".json");
            push_all(&mut cs, &ext);
            string_from_chars(&cs)
        },
    }
}

/// A version entry of the older OpenFusionClient.
#[derive(Debug)]
pub struct LegacyVersion {
    pub name: String,
    pub url: String,
}

/// A URL without one trailing `/`.
pub open spec fn asset_url_of(url: Seq<char>) -> Seq<char> {
    if url.len() > 0 && url.last() == '/' {
        url.drop_last()
    } else {
        url
    }
}

impl LegacyVersion {
    /// The version's asset URL: its URL without one trailing `/`.
    pub fn get_asset_url(&self) -> (url: String)
        ensures
            url@ == asset_url_of(self.url@),
    {
        let mut cs = chars_of(self.url.as_str());
        if cs.len() > 0 && cs[cs.len() - 1] == '/' {
            cs.pop();
        }
        string_from_chars(&cs)
    }
}

/// How checking or downloading one item of a game cache went.
#[derive(Debug, Clone, Copy, PartialEq, Eq, Structural)]
pub enum ItemProgress {
    /// The item failed; `missing` says whether that is because it is missing.
    Failed { item_size: u64, missing: bool },
    /// The item is fine.
    Passed { item_size: u64 },
    /// The item is still being worked on.
    InProgress,
}

/// One item's state as the user interface shows it.
#[derive(Debug, Clone, Copy, PartialEq, Eq, Structural)]
pub struct CacheProgressItem {
    pub item_size: u64,
    pub corrupt: bool,
    pub missing: bool,
}

/// The state to show for an item, for a finished item only: a failed item is
/// corrupt (and missing where it was missing), a passed one is fine.
pub fn progress_item(progress: ItemProgress) -> (item: Option<CacheProgressItem>)
    ensures
        match progress {
            ItemProgress::Failed { item_size, missing } => item == Some(
                CacheProgressItem { item_size, corrupt: true, missing },
            ),
            ItemProgress::Passed { item_size } => item == Some(
                CacheProgressItem { item_size, corrupt: false, missing: false },
            ),
            ItemProgress::InProgress => item is None,
        },
{
    match progress {
        ItemProgress::Failed { item_size, missing } => Some(CacheProgressItem { item_size, corrupt: true, missing }),
        ItemProgress::Passed { item_size } => Some(CacheProgressItem { item_size, corrupt: false, missing: false }),
        ItemProgress::InProgress => None,
    }
}

/// A kind of alert shown to the user.
#[derive(Debug, Clone, Copy, PartialEq, Eq, Structural)]
pub enum AlertVariant {
    Info,
    Warning,
    Error,
    Success,
}

/// An event of a cache check or download.
#[derive(Debug)]
pub enum CacheEvent {
    /// The named item is done, in this state.
    ItemProcessed(String, CacheProgressItem),
    /// All items are done.
    Done,
}

/// What the user interface is sent about a cache check or download.
#[derive(Debug)]
pub struct CacheProgress {
    pub offline: bool,
    pub uuid: Uuid,
    pub items: Vec<(String, CacheProgressItem)>,
    pub done: bool,
}

/// The state of each item, by name, for items listed once each.
pub open spec fn items_map(items: Seq<(String, CacheProgressItem)>) -> Map<Seq<char>, CacheProgressItem>
    decreases items.len(),
{
    if items.len() == 0 {
        Map::empty()
    } else {
        items_map(items.drop_last()).insert(items.last().0@, items.last().1)
    }
}

/// No name is listed twice.
pub open spec fn names_distinct(items: Seq<(String, CacheProgressItem)>) -> bool {
    forall|i: int, j: int| 0 <= i < j < items.len() ==> items[i].0@ != items[j].0@
}

proof fn lemma_items_map_update(items: Seq<(String, CacheProgressItem)>, i: int, name: String, item: CacheProgressItem)
    requires
        names_distinct(items),
        0 <= i < items.len(),
        items[i].0@ == name@,
    ensures
        items_map(items.update(i, (name, item))) == items_map(items).insert(name@, item),
    decreases items.len(),
{
    let u = items.update(i, (name, item));
    if i == items.len() - 1 {
        assert(u.drop_last() =~= items.drop_last());
        assert(items_map(u) =~= items_map(items).insert(name@, item));
    } else {
        assert(u.drop_last() =~= items.drop_last().update(i, (name, item)));
        lemma_items_map_update(items.drop_last(), i, name, item);
        assert(items.last().0@ != name@);
        assert(items_map(u) =~= items_map(items).insert(name@, item));
    }
}

proof fn lemma_items_map_absent(items: Seq<(String, CacheProgressItem)>, name: Seq<char>)
    requires
        forall|k: int| 0 <= k < items.len() ==> items[k].0@ != name,
    ensures
        !items_map(items).contains_key(name),
    decreases items.len(),
{
    if items.len() > 0 {
        lemma_items_map_absent(items.drop_last(), name);
    }
}

/// Records the state of the named item in `items`, replacing any earlier
/// state of it.
fn record_in(items: &mut Vec<(String, CacheProgressItem)>, name: String, item: CacheProgressItem)
    requires
        names_distinct(old(items)@),
    ensures
        names_distinct(final(items)@),
        items_map(final(items)@) == items_map(old(items)@).insert(name@, item),
{
    let target = chars_of(name.as_str());
    let mut k: usize = 0;
    while k < items.len()
        invariant
            k <= items.len(),
            items@ == old(items)@,
            target@ == name@,
            names_distinct(items@),
            forall|m: int| 0 <= m < k ==> items@[m].0@ != name@,
        decreases items.len() - k,
    {
        let key = chars_of(items[k].0.as_str());
        if chars_eq(&key, &target) {
            proof {
                lemma_items_map_update(items@, k as int, name, item);
            }
            let ghost before = items@;
            items.set(k, (name, item));
            assert forall|i: int, j: int| 0 <= i < j < items@.len() implies items@[i].0@ != items@[j].0@ by {
                assert(before[i].0@ != before[j].0@);
            }
            return;
        }
        k = k + 1;
    }
    proof {
        lemma_items_map_absent(items@, name@);
    }
    let ghost before = items@;
    items.push((name, item));
    assert(items@.drop_last() =~= before);
    assert forall|i: int, j: int| 0 <= i < j < items@.len() implies items@[i].0@ != items@[j].0@ by {
        if j < before.len() {
            assert(before[i].0@ != before[j].0@);
        }
    }
}

/// What a running cache check or download has reported so far: each item
/// at most once, by name, and whether the run is done.
#[derive(Debug)]
pub struct CacheProgressState {
    items: Vec<(String, CacheProgressItem)>,
    done: bool,
}

impl CacheProgressState {
    #[verifier::type_invariant]
    spec fn names_stay_distinct(self) -> bool {
        names_distinct(self.items@)
    }

    /// The items reported so far, each under a name of its own.
    pub closed spec fn reported(self) -> Seq<(String, CacheProgressItem)> {
        self.items@
    }

    /// Whether the run was reported done.
    pub closed spec fn finished(self) -> bool {
        self.done
    }

    /// Nothing reported yet.
    pub fn new() -> (r: Self)
        ensures
            r.reported().len() == 0,
            !r.finished(),
    {
        CacheProgressState { items: Vec::new(), done: false }
    }

    /// Whether the run was reported done.
    pub fn is_done(&self) -> (b: bool)
        ensures
            b == self.finished(),
    {
        self.done
    }

    /// Takes in one event: a processed item replaces any earlier state of the
    /// item of that name; `Done` marks the whole run done.
    pub fn apply_event(&mut self, event: CacheEvent)
        ensures
            names_distinct(final(self).reported()),
            match event {
                CacheEvent::ItemProcessed(name, item) => items_map(final(self).reported()) == items_map(
                    old(self).reported(),
                ).insert(name@, item) && final(self).finished() == old(self).finished(),
                CacheEvent::Done => final(self).reported() == old(self).reported() && final(self).finished(),
            },
    {
        proof {
            use_type_invariant(&*self);
        }
        match event {
            CacheEvent::ItemProcessed(name, item) => {
                self.record_item(name, item);
            },
            CacheEvent::Done => {
                self.done = true;
            },
        }
    }

    /// Records the state of the named item, replacing any earlier state of it.
    pub fn record_item(&mut self, name: String, item: CacheProgressItem)
        ensures
            names_distinct(final(self).reported()),
            items_map(final(self).reported()) == items_map(old(self).reported()).insert(name@, item),
            final(self).finished() == old(self).finished(),
    {
        proof {
            use_type_invariant(&*self);
        }
        let mut items: Vec<(String, CacheProgressItem)> = Vec::new();
        std::mem::swap(&mut items, &mut self.items);
        record_in(&mut items, name, item);
        self.items = items;
    }

    /// What to send the user interface now: every item reported so far, each
    /// under a name of its own.
    pub fn snapshot(&self, offline: bool, uuid: Uuid) -> (p: CacheProgress)
        ensures
            p.offline == offline,
            p.uuid == uuid,
            p.items@ == self.reported(),
            names_distinct(p.items@),
            p.done == self.finished(),
    {
        proof {
            use_type_invariant(self);
        }
        let mut items: Vec<(String, CacheProgressItem)> = Vec::new();
        let mut k: usize = 0;
        while k < self.items.len()
            invariant
                k <= self.items.len(),
                items@ == self.items@.take(k as int),
            decreases self.items.len() - k,
        {
            let name = self.items[k].0.clone();
            items.push((name, self.items[k].1));
            assert(items@ =~= self.items@.take(k + 1));
            k = k + 1;
        }
        assert(self.items@.take(k as int) =~= self.items@);
        CacheProgress { offline, uuid, items, done: self.done }
    }
}

} // verus!
