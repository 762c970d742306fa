//! Launch profiles: named launch format strings. Preset profiles are found
//! on the system (Wine, Proton, or the game run natively) and cannot be
//! edited; the user may add their own.
use vstd::prelude::*;
use crate::config::Config;
use crate::ids::{is_random_uuid, new_random_uuid, Uuid, NIL_UUID};
use crate::seqs::{first_index, lemma_first_index, lemma_first_index_at, lemma_first_index_none};
use crate::text::{chars_of, string_from_chars, trim, trim_chars};

verus! {

/// A saved launch profile.
#[derive(Debug)]
pub struct LaunchProfile {
    pub uuid: Uuid,
    pub name: String,
    /// The launch format string; `{}` stands for the game's own command.
    pub command: String,
    /// Whether the launcher found this profile itself (such a profile is
    /// replaced whenever the presets are reloaded, and cannot be edited).
    pub preset: bool,
}

impl Clone for LaunchProfile {
    fn clone(&self) -> (r: Self)
        ensures
            r == *self,
    {
        LaunchProfile {
            uuid: self.uuid,
            name: self.name.clone(),
            command: self.command.clone(),
            preset: self.preset,
        }
    }
}

impl LaunchProfile {
    /// A profile with the given name and command under a fresh random UUID.
    pub fn new(name: &str, command: &str, preset: bool) -> (r: Self)
        ensures
            is_random_uuid(r.uuid),
            r.name@ == name@,
            r.command@ == command@,
            r.preset == preset,
    {
        LaunchProfile {
            uuid: new_random_uuid(),
            name: String::from_str(name),
            command: String::from_str(command),
            preset,
        }
    }

    pub fn is_preset(&self) -> (b: bool)
        ensures
            b == self.preset,
    {
        self.preset
    }

    pub fn get_id(&self) -> (id: Uuid)
        ensures
            id == self.uuid,
    {
        self.uuid
    }

    pub fn get_command(&self) -> (c: &str)
        ensures
            c@ == self.command@,
    {
        self.command.as_str()
    }

    /// Sets the command to `stripped` without its leading and trailing white
    /// space (what is left of a preset's command once the Steam client
    /// variable has been cut out of it).
    pub fn apply_stripped_command(&mut self, stripped: &str)
        ensures
            final(self).command@ == trim(stripped@),
            final(self).uuid == old(self).uuid,
            final(self).name == old(self).name,
            final(self).preset == old(self).preset,
    {
        let cs = chars_of(stripped);
        let t = trim_chars(&cs);
        self.command = string_from_chars(&t);
    }
}

/// The result of regex's `Regex::new(pattern)` followed by
/// `replace_all(text, replacement)`: `None` where the pattern does not compile.
pub uninterp spec fn regex_replace_all(pattern: Seq<char>, text: Seq<char>, replacement: Seq<char>) -> Option<Seq<char>>;

/// regex's `Regex::new(pattern)` and then `Regex::replace_all(text,
/// replacement)`. The contract only names the result: what the crate computes
/// from these three strings is left to the crate.
#[verifier::external_body]
fn replace_all_matches(pattern: &str, text: &str, replacement: &str) -> (r: Option<String>)
    ensures
        match regex_replace_all(pattern@, text@, replacement@) {
            Some(s) => r is Some && r->0@ == s,
            None => r is None,
        },
{
    match regex::Regex::new(pattern) {
        Ok(re) => Some(re.replace_all(text, replacement).into_owned()),
        Err(_) => None,
    }
}

/// The pattern of the Steam client variable, with the white space around
/// it, in a preset's command.
pub open spec fn steam_compat_pattern() -> Seq<char> {
    "\\s*STEAM_COMPAT_CLIENT_INSTALL_PATH=\"[^\"]*\"\\s*"@
}

/// A preset's command with the Steam client variable cut out (each match of
/// `steam_compat_pattern` replaced by a space) and then trimmed; `None` where
/// the pattern fails to compile.
pub open spec fn stripped_command(command: Seq<char>) -> Option<Seq<char>> {
    match regex_replace_all(steam_compat_pattern(), command, " "@) {
        Some(s) => Some(trim(s)),
        None => None,
    }
}

/// Why the launch profiles could not be changed or loaded.
#[derive(Debug, PartialEq, Eq, Structural)]
pub enum ProfileError {
    /// No profile has this UUID.
    NotFound(Uuid),
    /// Preset profiles cannot be edited.
    PresetReadOnly,
    /// The pattern that cleans up preset commands did not compile.
    InvalidPattern,
}

/// The saved launch profiles, in order.
#[derive(Debug)]
pub struct LaunchProfiles {
    pub profiles: Vec<LaunchProfile>,
}

/// Whether a profile has UUID `id`.
pub open spec fn profile_has_id(id: Uuid) -> spec_fn(LaunchProfile) -> bool {
    |p: LaunchProfile| p.uuid == id
}

/// Whether a profile is a preset.
pub open spec fn profile_is_preset() -> spec_fn(LaunchProfile) -> bool {
    |p: LaunchProfile| p.preset
}

/// The index of the default profile: the first preset, or else the first
/// profile; `None` when there is no profile.
pub open spec fn default_index(list: Seq<LaunchProfile>) -> Option<int> {
    match first_index(list, profile_is_preset()) {
        Some(k) => Some(k),
        None => if list.len() > 0 {
            Some(0)
        } else {
            None
        },
    }
}

/// The profiles of `list` that are not presets, in order.
pub open spec fn user_profiles(list: Seq<LaunchProfile>) -> Seq<LaunchProfile>
    decreases list.len(),
{
    if list.len() == 0 {
        Seq::empty()
    } else {
        let r = user_profiles(list.drop_last());
        if list.last().preset {
            r
        } else {
            r.push(list.last())
        }
    }
}

/// The profiles of `list` whose UUID is not `id`, in order.
pub open spec fn without_profile(list: Seq<LaunchProfile>, id: Uuid) -> Seq<LaunchProfile>
    decreases list.len(),
{
    if list.len() == 0 {
        Seq::empty()
    } else {
        let r = without_profile(list.drop_last(), id);
        if list.last().uuid == id {
            r
        } else {
            r.push(list.last())
        }
    }
}

/// `after` is `before` with every preset's command cleaned up as
/// `stripped_command` says, and nothing else changed.
pub open spec fn migrated(before: Seq<LaunchProfile>, after: Seq<LaunchProfile>) -> bool {
    &&& after.len() == before.len()
    &&& forall|k: int|
        0 <= k < before.len() ==> {
            &&& (#[trigger] after[k]).uuid == before[k].uuid
            &&& after[k].name == before[k].name
            &&& after[k].preset == before[k].preset
            &&& if before[k].preset {
                stripped_command(before[k].command@) == Some(after[k].command@)
            } else {
                after[k].command == before[k].command
            }
        }
}

/// Every preset's command can be cleaned up (the pattern compiles).
pub open spec fn migratable(list: Seq<LaunchProfile>) -> bool {
    forall|k: int| 0 <= k < list.len() && (#[trigger] list[k]).preset ==> stripped_command(list[k].command@) is Some
}

impl LaunchProfiles {
    /// No profiles.
    pub fn new_empty() -> (r: Self)
        ensures
            r.profiles@.len() == 0,
    {
        LaunchProfiles { profiles: Vec::new() }
    }

    /// The first profile whose UUID is `id`.
    pub fn get(&self, id: Uuid) -> (res: Option<&LaunchProfile>)
        ensures
            match first_index(self.profiles@, profile_has_id(id)) {
                Some(k) => res == Some(&self.profiles@[k]),
                None => res is None,
            },
    {
        let mut k: usize = 0;
        while k < self.profiles.len()
            invariant
                k <= self.profiles.len(),
                forall|m: int| 0 <= m < k ==> self.profiles@[m].uuid != id,
            decreases self.profiles.len() - k,
        {
            if self.profiles[k].uuid == id {
                proof {
                    lemma_first_index_at(self.profiles@, profile_has_id(id), k as int);
                }
                return Some(&self.profiles[k]);
            }
            k = k + 1;
        }
        proof {
            lemma_first_index_none(self.profiles@, profile_has_id(id));
        }
        None
    }

    /// The default profile: the first preset, or else the first profile.
    pub fn get_default(&self) -> (res: Option<&LaunchProfile>)
        ensures
            match default_index(self.profiles@) {
                Some(k) => res == Some(&self.profiles@[k]),
                None => res is None,
            },
    {
        let mut k: usize = 0;
        while k < self.profiles.len()
            invariant
                k <= self.profiles.len(),
                forall|m: int| 0 <= m < k ==> !self.profiles@[m].preset,
            decreases self.profiles.len() - k,
        {
            if self.profiles[k].preset {
                proof {
                    lemma_first_index_at(self.profiles@, profile_is_preset(), k as int);
                }
                return Some(&self.profiles[k]);
            }
            k = k + 1;
        }
        proof {
            lemma_first_index_none(self.profiles@, profile_is_preset());
        }
        if self.profiles.len() > 0 {
            Some(&self.profiles[0])
        } else {
            None
        }
    }

    /// Adds a user profile (not a preset) under a fresh random UUID and returns that UUID.
    pub fn add_entry(&mut self, name: &str, command: &str) -> (id: Uuid)
        ensures
            final(self).profiles@.len() == old(self).profiles@.len() + 1,
            final(self).profiles@.drop_last() == old(self).profiles@,
            final(self).profiles@.last().uuid == id,
            final(self).profiles@.last().name@ == name@,
            final(self).profiles@.last().command@ == command@,
            !final(self).profiles@.last().preset,
            is_random_uuid(id),
    {
        let profile = LaunchProfile::new(name, command, false);
        let id = profile.get_id();
        self.profiles.push(profile);
        assert(self.profiles@.drop_last() =~= old(self).profiles@);
        id
    }

    /// Replaces the first profile with the UUID of `entry` by `entry`, unless
    /// that profile is a preset; fails, changing nothing, when it is a preset
    /// or when no profile has that UUID.
    pub fn update_entry(&mut self, entry: LaunchProfile) -> (res: Result<(), ProfileError>)
        ensures
            match first_index(old(self).profiles@, profile_has_id(entry.uuid)) {
                Some(k) => if old(self).profiles@[k].preset {
                    res == Err::<(), ProfileError>(ProfileError::PresetReadOnly) && final(self).profiles@
                        == old(self).profiles@
                } else {
                    res is Ok && final(self).profiles@ == old(self).profiles@.update(k, entry)
                },
                None => res == Err::<(), ProfileError>(ProfileError::NotFound(entry.uuid))
                    && final(self).profiles@ == old(self).profiles@,
            },
    {
        let mut k: usize = 0;
        while k < self.profiles.len()
            invariant
                k <= self.profiles.len(),
                self.profiles@ == old(self).profiles@,
                forall|m: int| 0 <= m < k ==> self.profiles@[m].uuid != entry.uuid,
            decreases self.profiles.len() - k,
        {
            if self.profiles[k].uuid == entry.uuid {
                proof {
                    lemma_first_index_at(self.profiles@, profile_has_id(entry.uuid), k as int);
                }
                if self.profiles[k].preset {
                    return Err(ProfileError::PresetReadOnly);
                }
                self.profiles.set(k, entry);
                return Ok(());
            }
            k = k + 1;
        }
        proof {
            lemma_first_index_none(self.profiles@, profile_has_id(entry.uuid));
        }
        Err(ProfileError::NotFound(entry.uuid))
    }

    /// Drops every profile whose UUID is `id`; the others keep their order.
    pub fn remove_entry(&mut self, id: Uuid)
        ensures
            final(self).profiles@ == without_profile(old(self).profiles@, id),
    {
        let ghost orig = self.profiles@;
        let ghost mut j: int = 0;
        let mut i: usize = 0;
        assert(orig.skip(0) =~= orig);
        assert(without_profile(orig.take(0), id) =~= Seq::<LaunchProfile>::empty());
        while i < self.profiles.len()
            invariant
                0 <= j <= orig.len(),
                self.profiles@ == without_profile(orig.take(j), id) + orig.skip(j),
                i == without_profile(orig.take(j), id).len(),
            decreases self.profiles.len() - i,
        {
            assert(orig.take(j + 1).drop_last() =~= orig.take(j));
            assert(self.profiles@[i as int] == orig[j]);
            if self.profiles[i].uuid == id {
                self.profiles.remove(i);
                assert(self.profiles@ =~= without_profile(orig.take(j + 1), id) + orig.skip(j + 1));
            } else {
                assert(self.profiles@ =~= without_profile(orig.take(j + 1), id) + orig.skip(j + 1));
                i = i + 1;
            }
            proof {
                j = j + 1;
            }
        }
        proof {
            if j < orig.len() {
                assert(self.profiles@.len() > i);
            }
            assert(orig.take(j) =~= orig);
            assert(self.profiles@ =~= without_profile(orig, id));
        }
    }

    /// Whether there is at least one profile.
    pub fn has_entries(&self) -> (b: bool)
        ensures
            b == (self.profiles@.len() > 0),
    {
        self.profiles.len() > 0
    }

    /// Replaces the presets by `presets`: the result is `presets`, followed
    /// by the user's own profiles in their order.
    pub fn reload_presets(&mut self, presets: LaunchProfiles)
        ensures
            final(self).profiles@ == presets.profiles@ + user_profiles(old(self).profiles@),
    {
        let mut profiles = presets.profiles;
        let ghost base = profiles@;
        let mut k: usize = 0;
        while k < self.profiles.len()
            invariant
                k <= self.profiles.len(),
                self.profiles@ == old(self).profiles@,
                profiles@ == base + user_profiles(self.profiles@.take(k as int)),
            decreases self.profiles.len() - k,
        {
            assert(self.profiles@.take(k + 1).drop_last() =~= self.profiles@.take(k as int));
            if !self.profiles[k].preset {
                profiles.push(self.profiles[k].clone());
            }
            assert(profiles@ =~= base + user_profiles(self.profiles@.take(k + 1)));
            k = k + 1;
        }
        assert(self.profiles@.take(k as int) =~= self.profiles@);
        self.profiles = profiles;
    }

    /// Cleans up the command of every preset (see `stripped_command`); the
    /// user's own profiles are left as they are. Fails when the cleaning
    /// pattern does not compile.
    pub fn apply_migrations(loaded: LaunchProfiles) -> (res: Result<LaunchProfiles, ProfileError>)
        ensures
            migratable(loaded.profiles@) ==> (res matches Ok(p) && migrated(loaded.profiles@, p.profiles@)),
            !migratable(loaded.profiles@) ==> res == Err::<LaunchProfiles, ProfileError>(ProfileError::InvalidPattern),
    {
        let mut profiles = loaded.profiles;
        let ghost orig = profiles@;
        let pattern = "\\s*STEAM_COMPAT_CLIENT_INSTALL_PATH=\"[^\"]*\"\\s*";
        let mut k: usize = 0;
        while k < profiles.len()
            invariant
                k <= profiles.len() == orig.len(),
                orig == loaded.profiles@,
                pattern@ == steam_compat_pattern(),
                forall|m: int| k <= m < orig.len() ==> profiles@[m] == orig[m],
                forall|m: int|
                    0 <= m < k ==> {
                        &&& (#[trigger] profiles@[m]).uuid == orig[m].uuid
                        &&& profiles@[m].name == orig[m].name
                        &&& profiles@[m].preset == orig[m].preset
                        &&& if orig[m].preset {
                            stripped_command(orig[m].command@) == Some(profiles@[m].command@)
                        } else {
                            profiles@[m].command == orig[m].command
                        }
                    },
                forall|m: int| 0 <= m < k && (#[trigger] orig[m]).preset ==> stripped_command(orig[m].command@) is Some,
            decreases profiles.len() - k,
        {
            if profiles[k].preset {
                let replaced = replace_all_matches(pattern, profiles[k].command.as_str(), " ");
                proof {
                    reveal_strlit(" ");
                }
                match replaced {
                    Some(s) => {
                        let mut p = profiles[k].clone();
                        p.apply_stripped_command(s.as_str());
                        profiles.set(k, p);
                    },
                    None => {
                        assert(!migratable(orig)) by {
                            assert(orig[k as int].preset);
                            assert(stripped_command(orig[k as int].command@) is None);
                        }
                        return Err(ProfileError::InvalidPattern);
                    },
                }
            }
            k = k + 1;
        }
        Ok(LaunchProfiles { profiles })
    }
}

/// The profile selected once `list` is loaded, when `selected` was selected
/// before: `selected` if some profile has that UUID, otherwise the default
/// profile, otherwise none (the nil UUID).
pub open spec fn selection_after(list: Seq<LaunchProfile>, selected: Uuid) -> Uuid {
    if first_index(list, profile_has_id(selected)) is Some {
        selected
    } else {
        match default_index(list) {
            Some(k) => list[k].uuid,
            None => NIL_UUID,
        }
    }
}

/// The name given to the profile made from an older configuration's launch command.
pub open spec fn custom_profile_name() -> Seq<char> {
    "Custom Profile"@
}

impl LaunchProfiles {
    /// Makes the configuration select a profile that exists: keeps the
    /// selection if some profile has that UUID, else selects the default
    /// profile, else none.
    pub fn fix_selection(&self, config: &mut Config)
        ensures
            final(config).game.launch_profile == selection_after(
                self.profiles@,
                old(config).game.launch_profile,
            ),
            final(config).launcher == old(config).launcher,
            final(config).game.graphics_api == old(config).game.graphics_api,
            final(config).game.fps_fix == old(config).game.fps_fix,
            final(config).game.window_size == old(config).game.window_size,
            final(config).game.launch_command == old(config).game.launch_command,
    {
        if self.get(config.game.launch_profile).is_none() {
            let id = match self.get_default() {
                Some(d) => d.get_id(),
                None => NIL_UUID,
            };
            config.game.launch_profile = id;
        }
    }

    /// The profiles once loaded. `loaded` is what was read from the
    /// application's data, if it could be read; `presets` are the presets
    /// found on this system. Profiles that were read have their presets'
    /// commands cleaned up (see `apply_migrations`). Where nothing could be
    /// read, the presets are used, and a launch command left in an older
    /// configuration becomes a user profile named "Custom Profile" that the
    /// configuration then selects. Either way the configuration is then made
    /// to select a profile that exists (see `fix_selection`).
    pub fn load(config: &mut Config, loaded: Option<LaunchProfiles>, presets: LaunchProfiles) -> (res:
        Result<LaunchProfiles, ProfileError>)
        ensures
            final(config).launcher == old(config).launcher,
            final(config).game.graphics_api == old(config).game.graphics_api,
            final(config).game.fps_fix == old(config).game.fps_fix,
            final(config).game.window_size == old(config).game.window_size,
            final(config).game.launch_command == old(config).game.launch_command,
            match loaded {
                Some(l) => if migratable(l.profiles@) {
                    res matches Ok(p) && migrated(l.profiles@, p.profiles@)
                        && final(config).game.launch_profile == selection_after(
                        p.profiles@,
                        old(config).game.launch_profile,
                    )
                } else {
                    res == Err::<LaunchProfiles, ProfileError>(ProfileError::InvalidPattern)
                        && final(config).game.launch_profile == old(config).game.launch_profile
                },
                None => res matches Ok(p) && match old(config).game.launch_command {
                    Some(cmd) => {
                        &&& p.profiles@.len() == presets.profiles@.len() + 1
                        &&& p.profiles@.drop_last() == presets.profiles@
                        &&& p.profiles@.last().name@ == custom_profile_name()
                        &&& p.profiles@.last().command@ == cmd@
                        &&& !p.profiles@.last().preset
                        &&& is_random_uuid(p.profiles@.last().uuid)
                        &&& final(config).game.launch_profile == selection_after(
                            p.profiles@,
                            p.profiles@.last().uuid,
                        )
                    },
                    None => p.profiles@ == presets.profiles@ && final(config).game.launch_profile
                        == selection_after(p.profiles@, old(config).game.launch_profile),
                },
            },
    {
        let profiles = match loaded {
            Some(l) => match Self::apply_migrations(l) {
                Ok(p) => p,
                Err(e) => {
                    return Err(e);
                },
            },
            None => {
                let mut p = presets;
                match &config.game.launch_command {
                    Some(cmd) => {
                        let id = p.add_entry("Custom Profile", cmd.as_str());
                        config.game.launch_profile = id;
                    },
                    None => {},
                }
                p
            },
        };
        profiles.fix_selection(config);
        Ok(profiles)
    }
}

/// The profiles as the user interface is given them, with the UUID of the
/// default profile.
#[derive(Debug)]
pub struct LaunchProfilesView {
    pub profiles: Vec<LaunchProfile>,
    pub default_profile: Option<Uuid>,
}

impl LaunchProfilesView {
    /// A copy of the profiles, with the UUID of the default one (see `get_default`).
    pub fn from_profiles(lp: &LaunchProfiles) -> (r: Self)
        ensures
            r.profiles@ == lp.profiles@,
            r.default_profile == match default_index(lp.profiles@) {
                Some(k) => Some(lp.profiles@[k].uuid),
                None => None::<Uuid>,
            },
    {
        let mut profiles: Vec<LaunchProfile> = Vec::new();
        let mut k: usize = 0;
        while k < lp.profiles.len()
            invariant
                k <= lp.profiles.len(),
                profiles@ == lp.profiles@.take(k as int),
            decreases lp.profiles.len() - k,
        {
            profiles.push(lp.profiles[k].clone());
            assert(profiles@ =~= lp.profiles@.take(k + 1));
            k = k + 1;
        }
        assert(lp.profiles@.take(k as int) =~= lp.profiles@);
        let default_profile = match lp.get_default() {
            Some(p) => Some(p.get_id()),
            None => None,
        };
        LaunchProfilesView { profiles, default_profile }
    }
}

/// The user's own profiles of `a + b` are those of `a`, then those of `b`.
pub proof fn lemma_user_profiles_concat(a: Seq<LaunchProfile>, b: Seq<LaunchProfile>)
    ensures
        user_profiles(a + b) == user_profiles(a) + user_profiles(b),
    decreases b.len(),
{
    if b.len() == 0 {
        assert(a + b =~= a);
        assert(user_profiles(a) + user_profiles(b) =~= user_profiles(a));
    } else {
        assert((a + b).drop_last() =~= a + b.drop_last());
        lemma_user_profiles_concat(a, b.drop_last());
        if !b.last().preset {
            assert(user_profiles(a) + user_profiles(b) =~= (user_profiles(a) + user_profiles(
                b.drop_last(),
            )).push(b.last()));
        }
    }
}

/// A list of user profiles only is its own list of user profiles.
pub proof fn lemma_user_profiles_of_user_profiles(list: Seq<LaunchProfile>)
    ensures
        user_profiles(user_profiles(list)) == user_profiles(list),
        forall|k: int| 0 <= k < user_profiles(list).len() ==> !(#[trigger] user_profiles(list)[k]).preset,
    decreases list.len(),
{
    if list.len() > 0 {
        lemma_user_profiles_of_user_profiles(list.drop_last());
        let r = user_profiles(list.drop_last());
        if !list.last().preset {
            assert(r.push(list.last()).drop_last() =~= r);
        }
    }
}

/// A list made of presets only has no user profiles.
pub proof fn lemma_user_profiles_of_presets(list: Seq<LaunchProfile>)
    requires
        forall|k: int| 0 <= k < list.len() ==> (#[trigger] list[k]).preset,
    ensures
        user_profiles(list) == Seq::<LaunchProfile>::empty(),
    decreases list.len(),
{
    if list.len() > 0 {
        lemma_user_profiles_of_presets(list.drop_last());
    }
}

/// Reloading the presets keeps the user's own profiles, in order; and
/// reloading the same presets a second time changes nothing.
pub proof fn lemma_reload_presets_keeps_user_profiles(old_list: Seq<LaunchProfile>, presets: Seq<LaunchProfile>)
    requires
        forall|k: int| 0 <= k < presets.len() ==> (#[trigger] presets[k]).preset,
    ensures
        user_profiles(presets + user_profiles(old_list)) == user_profiles(old_list),
        presets + user_profiles(presets + user_profiles(old_list)) == presets + user_profiles(old_list),
{
    lemma_user_profiles_concat(presets, user_profiles(old_list));
    lemma_user_profiles_of_presets(presets);
    lemma_user_profiles_of_user_profiles(old_list);
    assert(Seq::<LaunchProfile>::empty() + user_profiles(old_list) =~= user_profiles(old_list));
}

/// Once the selection is fixed, the selected profile exists whenever there
/// is any profile at all; otherwise nothing (the nil UUID) is selected.
pub proof fn lemma_selection_exists(list: Seq<LaunchProfile>, selected: Uuid)
    ensures
        list.len() > 0 ==> first_index(list, profile_has_id(selection_after(list, selected))) is Some,
        list.len() == 0 ==> selection_after(list, selected) == NIL_UUID,
{
    lemma_first_index(list, profile_is_preset());
    if list.len() == 0 {
        lemma_first_index(list, profile_has_id(selected));
    } else if first_index(list, profile_has_id(selected)) is None {
        let k = default_index(list).unwrap();
        let u = list[k].uuid;
        lemma_first_index(list, profile_has_id(u));
        assert(profile_has_id(u)(list[k]));
    }
}

/// The default profile is the first preset; where no profile is a preset,
/// it is the first profile; with no profiles there is none.
pub proof fn lemma_default_profile(list: Seq<LaunchProfile>)
    ensures
        first_index(list, profile_is_preset()) is None && list.len() > 0 ==> default_index(list) == Some(0int),
        list.len() == 0 ==> default_index(list) is None,
        forall|k: int|
            0 <= k < list.len() && (#[trigger] list[k]).preset && (forall|m: int| 0 <= m < k ==> !list[m].preset)
                ==> default_index(list) == Some(k),
{
    assert forall|k: int|
        0 <= k < list.len() && (#[trigger] list[k]).preset && (forall|m: int| 0 <= m < k ==> !list[m].preset)
            implies default_index(list) == Some(k) by {
        lemma_first_index_at(list, profile_is_preset(), k);
    }
    if list.len() == 0 {
        lemma_first_index_none(list, profile_is_preset());
    }
}

/// On every system, Windows aside, Wine found on the search path is offered
/// last, as `Wine (path)` running `"path" {}`; on Windows the one preset
/// runs the game natively, as `{}`.
pub proof fn lemma_wine_on_path_preset(
    os: HostOs,
    wine_installs: Seq<(Seq<char>, Seq<char>)>,
    steam_client: Option<Seq<char>>,
    proton_installs: Seq<(Seq<char>, Seq<char>)>,
    w: Seq<char>,
)
    ensures
        os != HostOs::Windows ==> ({
            let e = preset_entries(os, wine_installs, steam_client, proton_installs, Some(w));
            &&& e.len() > 0
            &&& e.last() == ("Wine ("@ + w + ")"@, seq!['"'] + w + "\" {}"@)
        }),
        preset_entries(HostOs::Windows, wine_installs, steam_client, proton_installs, Some(w)) == seq![
            ("Native"@, "{}"@),
        ],
        preset_entries(HostOs::Windows, wine_installs, steam_client, proton_installs, None) == seq![
            ("Native"@, "{}"@),
        ],
{
    reveal_strlit("Wine (");
    reveal_strlit(")");
    reveal_strlit("\" {}");
    assert(seq!['W', 'i', 'n', 'e', ' ', '('] + w + seq![')'] =~= "Wine ("@ + w + ")"@);
    assert(seq!['"'] + w + seq!['"', ' ', '{', '}'] =~= seq!['"'] + w + "\" {}"@);
    let e = preset_entries(os, wine_installs, steam_client, proton_installs, Some(w));
    if os != HostOs::Windows {
        assert(e.last() == (wine_profile_name_of(w), wrapper_command(w)));
    }
    assert(seq![("Native"@, "{}"@)] + Seq::<(Seq<char>, Seq<char>)>::empty() + Seq::empty() + Seq::empty() =~= seq![
        ("Native"@, "{}"@),
    ]);
}

/// After a profile is removed, no profile has its UUID.
pub proof fn lemma_removed_profile_gone(list: Seq<LaunchProfile>, id: Uuid)
    ensures
        first_index(without_profile(list, id), profile_has_id(id)) is None,
    decreases list.len(),
{
    lemma_removed_profile_absent(list, id);
    lemma_first_index_none(without_profile(list, id), profile_has_id(id));
}

proof fn lemma_removed_profile_absent(list: Seq<LaunchProfile>, id: Uuid)
    ensures
        forall|k: int| 0 <= k < without_profile(list, id).len() ==> (#[trigger] without_profile(list, id)[k]).uuid != id,
    decreases list.len(),
{
    if list.len() > 0 {
        lemma_removed_profile_absent(list.drop_last(), id);
        let r = without_profile(list.drop_last(), id);
        if list.last().uuid != id {
            assert forall|k: int| 0 <= k < r.push(list.last()).len() implies (#[trigger] r.push(
                list.last(),
            )[k]).uuid != id by {
                if k < r.len() {
                    assert(r.push(list.last())[k] == r[k]);
                }
            }
        }
    }
}

/// After a user profile is updated, looking up its UUID gives the new entry.
pub proof fn lemma_update_then_get_profile(list: Seq<LaunchProfile>, entry: LaunchProfile)
    requires
        first_index(list, profile_has_id(entry.uuid)) is Some,
    ensures
        ({
            let k = first_index(list, profile_has_id(entry.uuid)).unwrap();
            first_index(list.update(k, entry), profile_has_id(entry.uuid)) == Some(k)
                && list.update(k, entry)[k] == entry
        }),
{
    let p = profile_has_id(entry.uuid);
    lemma_first_index(list, p);
    let k = first_index(list, p).unwrap();
    let n = list.update(k, entry);
    assert forall|m: int| 0 <= m < k implies !p(n[m]) by {
        assert(n[m] == list[m]);
    }
    lemma_first_index_at(n, p, k);
}

/// A profile added under a UUID that no profile had before is what looking
/// up that UUID gives.
pub proof fn lemma_add_then_get_profile(list: Seq<LaunchProfile>, profile: LaunchProfile)
    requires
        first_index(list, profile_has_id(profile.uuid)) is None,
    ensures
        first_index(list.push(profile), profile_has_id(profile.uuid)) == Some(list.len() as int),
{
    let p = profile_has_id(profile.uuid);
    lemma_first_index(list, p);
    let n = list.push(profile);
    assert forall|m: int| 0 <= m < list.len() implies !p(n[m]) by {
        assert(n[m] == list[m]);
    }
    lemma_first_index_at(n, p, list.len() as int);
}

/// The operating system the launcher runs on, as far as the presets depend on it.
#[derive(Debug, Clone, Copy, PartialEq, Eq, Structural)]
pub enum HostOs {
    Windows,
    MacOs,
    Linux,
    Other,
}

/// The `(name, command)` of each preset profile, in order of preference: on
/// Windows only the game run natively (`Native`, `{}`); on macOS each Wine
/// install found (`wine_installs`, as name and path) run through Wine; on
/// Linux, when the Steam client was found (`steam_client`), each Proton
/// install found (`proton_installs`, as name and program); and everywhere but
/// on Windows the Wine on the search path, if any (`wine_on_path`).
pub open spec fn preset_entries(
    os: HostOs,
    wine_installs: Seq<(Seq<char>, Seq<char>)>,
    steam_client: Option<Seq<char>>,
    proton_installs: Seq<(Seq<char>, Seq<char>)>,
    wine_on_path: Option<Seq<char>>,
) -> Seq<(Seq<char>, Seq<char>)> {
    let native = if os == HostOs::Windows {
        seq![("Native"@, "{}"@)]
    } else {
        Seq::empty()
    };
    let mac = if os == HostOs::MacOs {
        wine_installs.map_values(|w: (Seq<char>, Seq<char>)| (w.0, wrapper_command(w.1)))
    } else {
        Seq::empty()
    };
    let linux = match steam_client {
        Some(client) => if os == HostOs::Linux {
            proton_installs.map_values(|p: (Seq<char>, Seq<char>)| (p.0, proton_command(client, p.1)))
        } else {
            Seq::empty()
        },
        None => Seq::empty(),
    };
    let path_wine = match wine_on_path {
        Some(w) => if os != HostOs::Windows {
            seq![(wine_profile_name_of(w), wrapper_command(w))]
        } else {
            Seq::empty()
        },
        None => Seq::empty(),
    };
    native + mac + linux + path_wine
}

/// `path` in double quotes, followed by a space and `{}`.
pub open spec fn wrapper_command(path: Seq<char>) -> Seq<char> {
    crate::launch::wrapper_command(path)
}

/// The launch format that runs the game through the Proton program `proton`.
pub open spec fn proton_command(client: Seq<char>, proton: Seq<char>) -> Seq<char> {
    crate::launch::steam_client_var() + seq!['=', '"'] + client + seq!['"', ' ', '"'] + proton + seq![
        '"',
        ' ',
        'r',
        'u',
        'n',
        ' ',
        '{',
        '}',
    ]
}

/// The name of the profile for the Wine at `path` on the search path.
pub open spec fn wine_profile_name_of(path: Seq<char>) -> Seq<char> {
    seq!['W', 'i', 'n', 'e', ' ', '('] + path + seq![')']
}

/// The names and commands of `profiles`.
pub open spec fn profile_entries(profiles: Seq<LaunchProfile>) -> Seq<(Seq<char>, Seq<char>)> {
    profiles.map_values(|p: LaunchProfile| (p.name@, p.command@))
}

fn push_preset(profiles: &mut Vec<LaunchProfile>, name: &str, command: &str)
    ensures
        final(profiles)@.drop_last() == old(profiles)@,
        final(profiles)@.len() == old(profiles)@.len() + 1,
        final(profiles)@.last().name@ == name@,
        final(profiles)@.last().command@ == command@,
        final(profiles)@.last().preset,
        is_random_uuid(final(profiles)@.last().uuid),
{
    profiles.push(LaunchProfile::new(name, command, true));
    assert(profiles@.drop_last() =~= old(profiles)@);
}

/// The preset profiles for this system (see `preset_entries`), each under a
/// fresh random UUID.
pub fn preset_launch_profiles(
    os: HostOs,
    wine_installs: &Vec<(String, String)>,
    steam_client: Option<String>,
    proton_installs: &Vec<(String, String)>,
    wine_on_path: Option<String>,
) -> (res: LaunchProfiles)
    ensures
        profile_entries(res.profiles@) == preset_entries(
            os,
            crate::launch::pair_views(wine_installs@),
            crate::util::opt_view(steam_client),
            crate::launch::pair_views(proton_installs@),
            crate::util::opt_view(wine_on_path),
        ),
        forall|k: int| 0 <= k < res.profiles@.len() ==> (#[trigger] res.profiles@[k]).preset && is_random_uuid(
            res.profiles@[k].uuid,
        ),
{
    let ghost wi = crate::launch::pair_views(wine_installs@);
    let ghost pi = crate::launch::pair_views(proton_installs@);
    let mut profiles: Vec<LaunchProfile> = Vec::new();
    let ghost mut expected: Seq<(Seq<char>, Seq<char>)> = Seq::empty();
    if os == HostOs::Windows {
        push_preset(&mut profiles, "Native", "{}");
        proof {
            expected = seq![("Native"@, "{}"@)];
            assert(profile_entries(profiles@) =~= expected);
        }
    }
    let ghost native = expected;
    if os == HostOs::MacOs {
        let mut k: usize = 0;
        while k < wine_installs.len()
            invariant
                k <= wine_installs.len(),
                wi == crate::launch::pair_views(wine_installs@),
                profile_entries(profiles@) == native + wi.take(k as int).map_values(
                    |w: (Seq<char>, Seq<char>)| (w.0, wrapper_command(w.1)),
                ),
                forall|m: int| 0 <= m < profiles@.len() ==> (#[trigger] profiles@[m]).preset && is_random_uuid(profiles@[m].uuid),
            decreases wine_installs.len() - k,
        {
            let cmd = crate::launch::wine_launch_command(wine_installs[k].1.as_str());
            let ghost before = profiles@;
            push_preset(&mut profiles, wine_installs[k].0.as_str(), cmd.as_str());
            proof {
                assert(profiles@ =~= before.push(profiles@.last()));
                assert(wi[k as int] == (wine_installs@[k as int].0@, wine_installs@[k as int].1@));
                assert(profile_entries(profiles@) =~= profile_entries(before).push(
                    (wi[k as int].0, wrapper_command(wi[k as int].1)),
                ));
                assert(wi.take(k + 1).map_values(|w: (Seq<char>, Seq<char>)| (w.0, wrapper_command(w.1)))
                    =~= wi.take(k as int).map_values(|w: (Seq<char>, Seq<char>)| (w.0, wrapper_command(w.1))).push(
                    (wi[k as int].0, wrapper_command(wi[k as int].1)),
                ));
                assert(profile_entries(profiles@) =~= native + wi.take(k + 1).map_values(
                    |w: (Seq<char>, Seq<char>)| (w.0, wrapper_command(w.1)),
                ));
            }
            k = k + 1;
        }
        proof {
            assert(wi.take(wine_installs@.len() as int) =~= wi);
        }
    } else {
        assert(profile_entries(profiles@) =~= native + Seq::<(Seq<char>, Seq<char>)>::empty());
    }
    let ghost mac = profile_entries(profiles@);
    if os == HostOs::Linux && steam_client.is_some() {
        let client = steam_client.unwrap();
        let mut k: usize = 0;
        while k < proton_installs.len()
            invariant
                k <= proton_installs.len(),
                pi == crate::launch::pair_views(proton_installs@),
                profile_entries(profiles@) == mac + pi.take(k as int).map_values(
                    |p: (Seq<char>, Seq<char>)| (p.0, proton_command(client@, p.1)),
                ),
                forall|m: int| 0 <= m < profiles@.len() ==> (#[trigger] profiles@[m]).preset && is_random_uuid(profiles@[m].uuid),
            decreases proton_installs.len() - k,
        {
            let cmd = crate::launch::proton_launch_command(client.as_str(), proton_installs[k].1.as_str());
            let ghost before = profiles@;
            push_preset(&mut profiles, proton_installs[k].0.as_str(), cmd.as_str());
            proof {
                assert(profiles@ =~= before.push(profiles@.last()));
                assert(pi[k as int] == (proton_installs@[k as int].0@, proton_installs@[k as int].1@));
                assert(profile_entries(profiles@) =~= profile_entries(before).push(
                    (pi[k as int].0, proton_command(client@, pi[k as int].1)),
                ));
                assert(pi.take(k + 1).map_values(|p: (Seq<char>, Seq<char>)| (p.0, proton_command(client@, p.1)))
                    =~= pi.take(k as int).map_values(|p: (Seq<char>, Seq<char>)| (p.0, proton_command(client@, p.1))).push(
                    (pi[k as int].0, proton_command(client@, pi[k as int].1)),
                ));
                assert(profile_entries(profiles@) =~= mac + pi.take(k + 1).map_values(
                    |p: (Seq<char>, Seq<char>)| (p.0, proton_command(client@, p.1)),
                ));
            }
            k = k + 1;
        }
        proof {
            assert(pi.take(proton_installs@.len() as int) =~= pi);
        }
    } else {
        assert(profile_entries(profiles@) =~= mac + Seq::<(Seq<char>, Seq<char>)>::empty());
    }
    let ghost linux = profile_entries(profiles@);
    match &wine_on_path {
        Some(w) => {
            if os != HostOs::Windows {
                let name = crate::launch::wine_profile_name(w.as_str());
                let cmd = crate::launch::wine_launch_command(w.as_str());
                let ghost before = profiles@;
                push_preset(&mut profiles, name.as_str(), cmd.as_str());
                assert(profiles@ =~= before.push(profiles@.last()));
                assert(profile_entries(profiles@) =~= linux + seq![(wine_profile_name_of(w@), wrapper_command(w@))]);
            } else {
                assert(profile_entries(profiles@) =~= linux + Seq::<(Seq<char>, Seq<char>)>::empty());
            }
        },
        None => {
            assert(profile_entries(profiles@) =~= linux + Seq::<(Seq<char>, Seq<char>)>::empty());
        },
    }
    LaunchProfiles { profiles }
}

} // verus!
