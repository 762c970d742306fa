//! The launcher's state: configuration, launch profiles, versions, servers
//! and tokens, and the directories the application works in.
use vstd::prelude::*;
use std::collections::HashMap;
use crate::config::Config;
use crate::ids::{hyphenated, uuid_string, Uuid};
use crate::profiles::{LaunchProfiles, ProfileError, migrated, migratable, custom_profile_name, selection_after};
use crate::seqs::first_index;
use crate::servers::{lemma_merge_lists_all, lemma_merge_nothing_new, merged, Server, ServerInfo, Servers};
use crate::tokens::Tokens;
use crate::versions::{is_named, merge_candidates, string_eq_str, Version, Versions};

verus! {

/// The directories and version of the running application, found once at start-up.
#[derive(Debug)]
pub struct AppStatics {
    pub version: String,
    pub app_data_dir: String,
    pub resource_dir: String,
    pub ff_cache_dir: String,
    pub offline_cache_dir: String,
    pub compat_data_dir: String,
    pub ffrunner_log_path: String,
}

impl AppStatics {
    /// The application's version.
    pub fn get_version(&self) -> (v: &str)
        ensures
            v@ == self.version@,
    {
        self.version.as_str()
    }
}

/// The default directory of the game's cache.
pub fn get_default_cache_dir(statics: &AppStatics) -> (dir: String)
    ensures
        dir@ == statics.ff_cache_dir@,
{
    statics.ff_cache_dir.clone()
}

/// The default directory of the offline cache.
pub fn get_default_offline_cache_dir(statics: &AppStatics) -> (dir: String)
    ensures
        dir@ == statics.offline_cache_dir@,
{
    statics.offline_cache_dir.clone()
}

/// The launcher's state.
#[derive(Debug)]
pub struct AppState {
    pub config: Config,
    pub launch_profiles: LaunchProfiles,
    pub versions: Versions,
    pub servers: Servers,
    pub tokens: Tokens,
    /// Tokens that last only as long as the launcher runs, by server UUID.
    pub temp_tokens: HashMap<Uuid, String>,
    /// Whether the configuration file may be written back (it is not where
    /// it existed but could not be read).
    pub write_config: bool,
}

/// Which configuration the launcher starts with.
#[derive(Debug)]
pub enum ConfigChoice {
    /// The configuration read from disk; it is written back on save.
    Loaded(Config),
    /// The default configuration. It is written back on save only where no
    /// configuration file existed; where one existed but could not be read,
    /// the user is warned and the file is left alone.
    Defaults { write_config: bool, warn: bool },
}

impl ConfigChoice {
    /// Whether the configuration may be written back on save: always for one
    /// read from disk; for the defaults, only where no file existed.
    pub fn write_config(&self) -> (b: bool)
        ensures
            match *self {
                ConfigChoice::Loaded(_) => b,
                ConfigChoice::Defaults { write_config, .. } => b == write_config,
            },
    {
        match self {
            ConfigChoice::Loaded(_) => true,
            ConfigChoice::Defaults { write_config, .. } => *write_config,
        }
    }
}

/// The configuration to start with, from what reading the configuration
/// file gave (`None` where it failed) and whether the file exists.
pub fn choose_config(loaded: Option<Config>, config_exists: bool) -> (c: ConfigChoice)
    ensures
        match loaded {
            Some(config) => c == ConfigChoice::Loaded(config),
            None => c == (ConfigChoice::Defaults { write_config: !config_exists, warn: config_exists }),
        },
{
    match loaded {
        Some(config) => ConfigChoice::Loaded(config),
        None => ConfigChoice::Defaults { write_config: !config_exists, warn: config_exists },
    }
}

/// `after` is `before` with each plain server's version replaced by the
/// hyphenated UUID of the first known version of that name, where there is one.
pub open spec fn versions_fixed_up(before: Seq<Server>, after: Seq<Server>, versions: Seq<Version>) -> bool {
    &&& after.len() == before.len()
    &&& forall|k: int|
        0 <= k < before.len() ==> {
            &&& (#[trigger] after[k]).uuid == before[k].uuid
            &&& after[k].description == before[k].description
            &&& match before[k].info {
                ServerInfo::Simple { ip, version } => match first_index(versions, is_named(version@)) {
                    Some(i) => after[k].info matches ServerInfo::Simple { ip: ip2, version: v2 }
                        && ip2 == ip && v2@ == hyphenated(versions[i].uuid),
                    None => after[k].info == before[k].info,
                },
                ServerInfo::Endpoint { .. } => after[k].info == before[k].info,
            }
        }
}

/// Whether a server uses the version whose hyphenated UUID is `version`: a
/// plain server with that version, or an endpoint that prefers it.
pub open spec fn uses_version(server: Server, version: Seq<char>) -> bool {
    match server.info {
        ServerInfo::Simple { version: v, .. } => v@ == version,
        ServerInfo::Endpoint { preferred_version, .. } => preferred_version matches Some(p) && p@ == version,
    }
}

/// How many servers of `list` use the version whose hyphenated UUID is `version`.
pub open spec fn use_count(list: Seq<Server>, version: Seq<char>) -> nat
    decreases list.len(),
{
    if list.len() == 0 {
        0
    } else {
        use_count(list.drop_last(), version) + if uses_version(list.last(), version) {
            1nat
        } else {
            0nat
        }
    }
}

fn same_chars(a: &String, b: &String) -> (r: bool)
    ensures
        r == (a@ == b@),
{
    string_eq_str(a, b.as_str())
}

impl AppState {
    /// Older saved servers name their version by its name rather than its
    /// UUID; this replaces each such name by the hyphenated UUID of the first
    /// known version of that name (see `versions_fixed_up`).
    pub fn fixup_server_versions(servers: &mut Servers, versions: &Versions)
        ensures
            versions_fixed_up(old(servers).servers@, final(servers).servers@, versions.versions@),
            final(servers).favorites == old(servers).favorites,
    {
        let mut k: usize = 0;
        while k < servers.servers.len()
            invariant
                k <= servers.servers.len() == old(servers).servers@.len(),
                servers.favorites == old(servers).favorites,
                forall|m: int| k <= m < servers.servers@.len() ==> servers.servers@[m] == old(servers).servers@[m],
                versions_fixed_up(old(servers).servers@.take(k as int), servers.servers@.take(k as int), versions.versions@),
            decreases servers.servers.len() - k,
        {
            let s = servers.servers[k].clone();
            let ghost before = servers.servers@;
            let fixed = match s.info {
                ServerInfo::Simple { ip, version } => {
                    match versions.get_entry_by_name(version.as_str()) {
                        Some(v) => Server {
                            uuid: s.uuid,
                            description: s.description,
                            info: ServerInfo::Simple { ip, version: uuid_string(v.uuid) },
                        },
                        None => Server { uuid: s.uuid, description: s.description, info: ServerInfo::Simple { ip, version } },
                    }
                },
                ServerInfo::Endpoint { endpoint, preferred_version } => Server {
                    uuid: s.uuid,
                    description: s.description,
                    info: ServerInfo::Endpoint { endpoint, preferred_version },
                },
            };
            servers.servers.set(k, fixed);
            assert forall|m: int| 0 <= m < k + 1 implies #[trigger] servers.servers@.take(k + 1)[m] == (if m < k {
                before.take(k as int)[m]
            } else {
                fixed
            }) by {}
            assert forall|m: int| 0 <= m < k + 1 implies #[trigger] old(servers).servers@.take(k + 1)[m] == (if m < k {
                old(servers).servers@.take(k as int)[m]
            } else {
                old(servers).servers@[k as int]
            }) by {}
            k = k + 1;
        }
        assert(old(servers).servers@.take(k as int) =~= old(servers).servers@);
        assert(servers.servers@.take(k as int) =~= servers.servers@);
    }

    /// How many saved servers use the version `uuid` (see `uses_version`).
    pub fn get_version_use_count(&self, uuid: Uuid) -> (n: usize)
        ensures
            n == use_count(self.servers.servers@, hyphenated(uuid)),
            n <= self.servers.servers@.len(),
    {
        let target = uuid_string(uuid);
        let mut n: usize = 0;
        let mut k: usize = 0;
        while k < self.servers.servers.len()
            invariant
                k <= self.servers.servers.len(),
                target@ == hyphenated(uuid),
                n == use_count(self.servers.servers@.take(k as int), hyphenated(uuid)),
                n <= k,
            decreases self.servers.servers.len() - k,
        {
            let uses = match &self.servers.servers[k].info {
                ServerInfo::Simple { version, .. } => same_chars(version, &target),
                ServerInfo::Endpoint { preferred_version, .. } => match preferred_version {
                    Some(p) => same_chars(p, &target),
                    None => false,
                },
            };
            assert(self.servers.servers@.take(k + 1).drop_last() =~= self.servers.servers@.take(k as int));
            if uses {
                n = n + 1;
            }
            k = k + 1;
        }
        assert(self.servers.servers@.take(k as int) =~= self.servers.servers@);
        n
    }
}

impl AppState {
    /// Brings in the servers of the older OpenFusionClient, if any were
    /// found: their versions are fixed up (see `fixup_server_versions`), then
    /// they are merged into the saved servers (see `Servers::merge`). Returns
    /// how many were added.
    pub fn import_servers(&mut self, imported: Option<Servers>) -> (count: usize)
        ensures
            match imported {
                Some(other) => exists|fixed: Seq<Server>|
                    versions_fixed_up(other.servers@, fixed, old(self).versions.versions@)
                        && final(self).servers.servers@ == merged(old(self).servers.servers@, fixed),
                None => final(self).servers.servers@ == old(self).servers.servers@,
            },
            count == final(self).servers.servers@.len() - old(self).servers.servers@.len(),
            final(self).servers.favorites == old(self).servers.favorites,
            final(self).versions == old(self).versions,
            final(self).config == old(self).config,
            final(self).launch_profiles == old(self).launch_profiles,
    {
        match imported {
            Some(other) => {
                let mut other = other;
                Self::fixup_server_versions(&mut other, &self.versions);
                self.servers.merge(&other)
            },
            None => 0,
        }
    }

    /// The versions of the older OpenFusionClient that the launcher does not
    /// know yet, neither by UUID nor by asset URL (see `Versions::calculate_merge`).
    pub fn versions_to_import(&self, legacy: Vec<Version>) -> (to_import: Vec<Version>)
        ensures
            to_import@ == merge_candidates(self.versions.versions@, legacy@),
    {
        Versions::calculate_merge(self.versions.versions.as_slice(), legacy)
    }

    /// Adds the versions that were imported, at the end, and returns how many there were.
    pub fn add_imported_versions(&mut self, imported: Vec<Version>) -> (count: usize)
        ensures
            final(self).versions.versions@ == old(self).versions.versions@ + imported@,
            count == imported@.len(),
            final(self).versions.filenames == old(self).versions.filenames,
            final(self).servers == old(self).servers,
    {
        let count = imported.len();
        let mut k: usize = 0;
        while k < imported.len()
            invariant
                k <= imported.len(),
                self.versions.versions@ == old(self).versions.versions@ + imported@.take(k as int),
                self.versions.filenames == old(self).versions.filenames,
                self.servers == old(self).servers,
            decreases imported.len() - k,
        {
            self.versions.versions.push(imported[k].clone());
            assert(self.versions.versions@ =~= old(self).versions.versions@ + imported@.take(k + 1));
            k = k + 1;
        }
        assert(imported@.take(k as int) =~= imported@);
        count
    }

    /// The state at start-up, from what was loaded: the configuration and
    /// whether it may be written back, the launch profiles read from disk
    /// (`None` where they could not be read) and the presets found on this
    /// system (see `LaunchProfiles::load`), the versions, the servers (whose
    /// versions are fixed up, see `fixup_server_versions`) and the tokens.
    /// Fails only where the profiles read cannot be cleaned up.
    pub fn assemble(
        config: Config,
        write_config: bool,
        loaded_profiles: Option<LaunchProfiles>,
        presets: LaunchProfiles,
        versions: Versions,
        servers: Servers,
        tokens: Tokens,
    ) -> (res: Result<AppState, ProfileError>)
        ensures
            match res {
                Ok(state) => {
                    &&& versions_fixed_up(servers.servers@, state.servers.servers@, versions.versions@)
                    &&& state.servers.favorites == servers.favorites
                    &&& state.versions == versions
                    &&& state.tokens == tokens
                    &&& state.temp_tokens@ == Map::<Uuid, String>::empty()
                    &&& state.write_config == write_config
                    &&& state.config.launcher == config.launcher
                    &&& state.config.game.launch_command == config.game.launch_command
                    &&& state.config.game.graphics_api == config.game.graphics_api
                    &&& state.config.game.fps_fix == config.game.fps_fix
                    &&& state.config.game.window_size == config.game.window_size
                    &&& match loaded_profiles {
                        Some(l) => migrated(l.profiles@, state.launch_profiles.profiles@)
                            && state.config.game.launch_profile == selection_after(
                            state.launch_profiles.profiles@,
                            config.game.launch_profile,
                        ),
                        None => match config.game.launch_command {
                            Some(cmd) => {
                                &&& state.launch_profiles.profiles@.drop_last() == presets.profiles@
                                &&& state.launch_profiles.profiles@.len() == presets.profiles@.len() + 1
                                &&& state.launch_profiles.profiles@.last().name@ == custom_profile_name()
                                &&& state.launch_profiles.profiles@.last().command@ == cmd@
                                &&& !state.launch_profiles.profiles@.last().preset
                                &&& state.config.game.launch_profile == selection_after(
                                    state.launch_profiles.profiles@,
                                    state.launch_profiles.profiles@.last().uuid,
                                )
                            },
                            None => state.launch_profiles.profiles@ == presets.profiles@
                                && state.config.game.launch_profile == selection_after(
                                state.launch_profiles.profiles@,
                                config.game.launch_profile,
                            ),
                        },
                    }
                },
                Err(e) => e == ProfileError::InvalidPattern && (loaded_profiles matches Some(l) && !migratable(l.profiles@)),
            },
    {
        let mut config = config;
        let launch_profiles = match LaunchProfiles::load(&mut config, loaded_profiles, presets) {
            Ok(p) => p,
            Err(e) => {
                return Err(e);
            },
        };
        let mut servers = servers;
        Self::fixup_server_versions(&mut servers, &versions);
        Ok(AppState {
            config,
            launch_profiles,
            versions,
            servers,
            tokens,
            temp_tokens: HashMap::new(),
            write_config,
        })
    }
}

/// Adding a server raises the count of servers that use a version by one
/// exactly when it names that version: a plain server by its version, an
/// endpoint by its preferred version; an endpoint with no preferred version
/// names none and never counts. No server at all counts nothing.
pub proof fn lemma_use_count_push(list: Seq<Server>, server: Server, version: Seq<char>)
    ensures
        use_count(Seq::<Server>::empty(), version) == 0,
        use_count(list, version) <= list.len(),
        use_count(list.push(server), version) == use_count(list, version) + match server.info {
            ServerInfo::Simple { version: v, .. } => if v@ == version { 1int } else { 0int },
            ServerInfo::Endpoint { preferred_version: Some(p), .. } => if p@ == version { 1int } else { 0int },
            ServerInfo::Endpoint { preferred_version: None, .. } => 0int,
        },
    decreases list.len(),
{
    assert(list.push(server).drop_last() =~= list);
    if list.len() > 0 {
        lemma_use_count_push(list.drop_last(), list.last(), version);
    }
}

/// An endpoint with no preferred version uses no version.
pub proof fn lemma_endpoint_without_version_uses_none(endpoint: String, uuid: Uuid, list: Seq<Server>, s: Server)
    requires
        s.info == (ServerInfo::Endpoint { endpoint, preferred_version: None }),
    ensures
        use_count(seq![s], hyphenated(uuid)) == 0,
        use_count(list.push(s), hyphenated(uuid)) == use_count(list, hyphenated(uuid)),
{
    lemma_use_count_push(Seq::<Server>::empty(), s, hyphenated(uuid));
    assert(Seq::<Server>::empty().push(s) =~= seq![s]);
    lemma_use_count_push(list, s, hyphenated(uuid));
}

/// Importing the older OpenFusionClient's servers a second time adds none,
/// whatever versions are known at each import: fixing up versions never
/// changes a server's UUID, and the first import listed every one of them.
pub proof fn lemma_import_servers_twice(
    mine: Seq<Server>,
    other: Seq<Server>,
    first: Seq<Server>,
    second: Seq<Server>,
    versions_then: Seq<Version>,
    versions_now: Seq<Version>,
)
    requires
        versions_fixed_up(other, first, versions_then),
        versions_fixed_up(other, second, versions_now),
    ensures
        merged(merged(mine, first), second) == merged(mine, first),
{
    lemma_merge_lists_all(mine, first);
    assert forall|k: int| 0 <= k < second.len() implies crate::servers::lists_uuid(
        merged(mine, first),
        #[trigger] second[k].uuid,
    ) by {
        assert(second[k].uuid == first[k].uuid);
    }
    lemma_merge_nothing_new(merged(mine, first), second);
}

} // verus!
