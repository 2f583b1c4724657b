//! Profiles and the settings that hold them. Every change keeps exactly one
//! profile active.

use vstd::prelude::*;
use crate::model::{clone_mods, clone_text, Mod, ModInfo, ModInfoView, ModView};
use crate::paths::{
    file_name, file_name_of, layout_of, moddata_dir, moddata_dir_of, profile_dir, profile_dir_of,
    UserDataPaths, UserDataPathsView,
};
use crate::text::{concat, str_eq, strip, stripped, Strip};

verus! {

/// The position of the first element of `s` that meets `pred`, or the
/// length of `s` if there is none.
pub open spec fn first_at<T>(s: Seq<T>, pred: spec_fn(T) -> bool) -> int
    decreases s.len(),
{
    if s.len() == 0 {
        0
    } else if pred(s[0]) {
        0
    } else {
        1 + first_at(s.drop_first(), pred)
    }
}

/// `first_at` lies within the sequence, nothing before it meets `pred`, and
/// the element at it does unless it is the length.
pub proof fn lemma_first_at<T>(s: Seq<T>, pred: spec_fn(T) -> bool)
    ensures
        0 <= first_at(s, pred) <= s.len(),
        forall|j: int| 0 <= j < first_at(s, pred) ==> !pred(s[j]),
        first_at(s, pred) < s.len() ==> pred(s[first_at(s, pred)]),
    decreases s.len(),
{
    if s.len() > 0 && !pred(s[0]) {
        let t = s.drop_first();
        lemma_first_at(t, pred);
        assert forall|j: int| 0 <= j < first_at(s, pred) implies !pred(s[j]) by {
            if j > 0 {
                assert(s[j] == t[j - 1]);
            }
        }
    }
}

/// A position with nothing before it that meets `pred`, and with such an
/// element or the end of the sequence at it, is the `first_at`.
pub proof fn lemma_first_at_is<T>(s: Seq<T>, pred: spec_fn(T) -> bool, k: int)
    requires
        0 <= k <= s.len(),
        forall|j: int| 0 <= j < k ==> !pred(s[j]),
        k < s.len() ==> pred(s[k]),
    ensures
        first_at(s, pred) == k,
    decreases s.len(),
{
    if s.len() > 0 && k > 0 {
        let t = s.drop_first();
        assert(!pred(s[0]));
        assert forall|j: int| 0 <= j < k - 1 implies !pred(t[j]) by {
            assert(t[j] == s[j + 1]);
        }
        lemma_first_at_is(t, pred, k - 1);
    }
}

/// What a `Profile` stands for.
pub struct ProfileView {
    pub id: Seq<char>,
    pub name: Seq<char>,
    pub game_path: Option<Seq<char>>,
    pub profile_path: UserDataPathsView,
    pub mod_status: Seq<ModView>,
    pub is_active: bool,
}

/// One game configuration: its own directories, its game executable, and
/// the mods of the store as the last scan for it saw them.
#[derive(Debug)]
pub struct Profile {
    pub id: String,
    pub name: String,
    pub game_path: Option<String>,
    pub profile_path: UserDataPaths,
    pub mod_status: Vec<Mod>,
    pub is_active: bool,
}

impl View for Profile {
    type V = ProfileView;

    open spec fn view(&self) -> ProfileView {
        ProfileView {
            id: self.id@,
            name: self.name@,
            game_path: self.game_path.deep_view(),
            profile_path: self.profile_path@,
            mod_status: self.mod_status.deep_view(),
            is_active: self.is_active,
        }
    }
}

impl DeepView for Profile {
    type V = ProfileView;

    open spec fn deep_view(&self) -> ProfileView {
        self@
    }
}

impl Clone for Profile {
    fn clone(&self) -> (r: Self)
        ensures
            r@ == self@,
    {
        Profile {
            id: self.id.clone(),
            name: self.name.clone(),
            game_path: clone_text(&self.game_path),
            profile_path: self.profile_path.clone(),
            mod_status: clone_mods(&self.mod_status),
            is_active: self.is_active,
        }
    }
}

/// The name of the folder of a new profile: its name, `_`, and its id.
pub open spec fn folder_of(name: Seq<char>, id: Seq<char>) -> Seq<char> {
    name + "_"@ + id
}

/// A new profile: inactive, without mods, in its folder under the
/// application's data directory.
pub open spec fn new_profile(
    app_data_dir: Seq<char>,
    id: Seq<char>,
    name: Seq<char>,
    game_path: Option<Seq<char>>,
) -> ProfileView {
    ProfileView {
        id,
        name,
        game_path,
        profile_path: layout_of(profile_dir_of(app_data_dir, folder_of(name, id))),
        mod_status: Seq::empty(),
        is_active: false,
    }
}

/// The profile `default`: a new profile of that id and name, active.
pub open spec fn default_profile(app_data_dir: Seq<char>) -> ProfileView {
    ProfileView { is_active: true, ..new_profile(app_data_dir, "default"@, "default"@, None) }
}

/// The descriptors of `mods`, in order: of the installed ones only where
/// `active_only` is set.
pub open spec fn mod_infos(mods: Seq<ModView>, active_only: bool) -> Seq<ModInfoView>
    decreases mods.len(),
{
    if mods.len() == 0 {
        Seq::empty()
    } else if !active_only || mods.last().is_installed {
        mod_infos(mods.drop_last(), active_only).push(mods.last().info)
    } else {
        mod_infos(mods.drop_last(), active_only)
    }
}

/// The store paths of `mods`, in order.
pub open spec fn local_paths(mods: Seq<ModView>) -> Seq<Seq<char>> {
    Seq::new(mods.len(), |i: int| mods[i].local_path)
}

impl Profile {
    /// A new profile.
    pub fn new(app_data_dir: &str, id: String, name: String, game_path: Option<String>) -> (r:
        Profile)
        ensures
            r@ == new_profile(app_data_dir@, id@, name@, game_path.deep_view()),
    {
        let prefix = concat(name.as_str(), "_");
        let folder = concat(prefix.as_str(), id.as_str());
        let root = profile_dir(app_data_dir, folder.as_str());
        let r = Profile {
            id,
            name,
            game_path,
            profile_path: UserDataPaths::new(root),
            mod_status: Vec::new(),
            is_active: false,
        };
        proof {
            assert(r.mod_status.deep_view() =~= Seq::<ModView>::empty());
        }
        r
    }

    /// The profile `default`.
    pub fn default_in(app_data_dir: &str) -> (r: Profile)
        ensures
            r@ == default_profile(app_data_dir@),
    {
        let mut r = Profile::new(app_data_dir, "default".to_owned(), "default".to_owned(), None);
        r.is_active = true;
        r
    }

    /// The descriptors of the profile's mods: of the installed ones only
    /// where `active_only` is set.
    pub fn get_mod_info(&self, active_only: bool) -> (r: Vec<ModInfo>)
        ensures
            r.deep_view() == mod_infos(self@.mod_status, active_only),
    {
        let mut r: Vec<ModInfo> = Vec::new();
        let ghost all = self.mod_status.deep_view();
        proof {
            assert(r.deep_view() =~= Seq::<ModInfoView>::empty());
            assert(all.take(0) =~= Seq::<ModView>::empty());
        }
        let mut i: usize = 0;
        while i < self.mod_status.len()
            invariant
                i <= self.mod_status.len(),
                all == self.mod_status.deep_view(),
                r.deep_view() == mod_infos(all.take(i as int), active_only),
            decreases self.mod_status.len() - i,
        {
            let ghost before = r.deep_view();
            proof {
                let t = all.take(i as int + 1);
                assert(t.drop_last() =~= all.take(i as int));
                assert(t.last() == all[i as int]);
            }
            if !active_only || self.mod_status[i].is_installed {
                let info = self.mod_status[i].info.clone();
                r.push(info);
                proof {
                    assert(r.deep_view() =~= before.push(all[i as int].info));
                }
            }
            i += 1;
        }
        proof {
            assert(all.take(i as int) =~= all);
        }
        r
    }

    /// The store paths of the profile's mods.
    pub fn get_mod_local_paths(&self) -> (r: Vec<String>)
        ensures
            r.deep_view() == local_paths(self@.mod_status),
    {
        let mut r: Vec<String> = Vec::new();
        let mut i: usize = 0;
        while i < self.mod_status.len()
            invariant
                i <= self.mod_status.len(),
                r.len() == i,
                forall|j: int| 0 <= j < i ==> r@[j]@ == self.mod_status@[j].local_path@,
            decreases self.mod_status.len() - i,
        {
            r.push(self.mod_status[i].local_path.clone());
            i += 1;
        }
        proof {
            assert(r.deep_view() =~= local_paths(self@.mod_status));
        }
        r
    }

    /// The game executable of the profile.
    pub fn get_game_path(&self) -> (r: Option<String>)
        ensures
            r.deep_view() == self@.game_path,
    {
        clone_text(&self.game_path)
    }

    /// The root of the profile's directories.
    pub fn get_profile_root_dir(&self) -> (r: String)
        ensures
            r@ == self@.profile_path.root,
    {
        self.profile_path.root.clone()
    }

    /// The directories of the profile that have to exist, the root first.
    pub fn required_dirs(&self) -> (r: Vec<String>)
        ensures
            r.deep_view() == seq![
                self@.profile_path.root,
                self@.profile_path.mods,
                self@.profile_path.save,
                self@.profile_path.config,
                self@.profile_path.font,
                self@.profile_path.sound,
                self@.profile_path.gfx,
            ],
    {
        self.profile_path.directories()
    }
}

/// The path of a game executable as it is written: without white space and
/// without double quotes around it.
pub open spec fn written_path(raw: Seq<char>) -> Seq<char> {
    stripped(stripped(raw, Strip::Space), Strip::Quote)
}

/// The game executable that `raw` gives: the path as it is written, where
/// its final component is the name of the game on one of the platforms.
pub open spec fn game_path_of(raw: Option<Seq<char>>) -> Option<Seq<char>> {
    match raw {
        Some(text) => {
            let path = written_path(text);
            if file_name_of(path) == Some("cataclysm-tiles.exe"@) || file_name_of(path) == Some(
                "Cataclysm.app"@,
            ) {
                Some(path)
            } else {
                None
            }
        },
        None => None,
    }
}

/// The game executable that `raw` gives, if it gives one.
pub fn normalize_game_path(raw: Option<&str>) -> (r: Option<String>)
    ensures
        r.deep_view() == game_path_of(raw.deep_view()),
{
    match raw {
        Some(text) => {
            let bare = strip(text, Strip::Space);
            let path = strip(bare.as_str(), Strip::Quote);
            let known = match file_name(path.as_str()) {
                Some(name) => str_eq(name.as_str(), "cataclysm-tiles.exe") || str_eq(
                    name.as_str(),
                    "Cataclysm.app",
                ),
                None => false,
            };
            if known {
                Some(path)
            } else {
                None
            }
        },
        None => None,
    }
}

/// The position of the first profile with the id `id`.
pub open spec fn position_of(profiles: Seq<ProfileView>, id: Seq<char>) -> int {
    first_at(profiles, |p: ProfileView| p.id == id)
}

/// The position of the first active profile.
pub open spec fn active_position(profiles: Seq<ProfileView>) -> int {
    first_at(profiles, |p: ProfileView| p.is_active)
}

/// Whether no two profiles share an id.
pub open spec fn distinct_ids(profiles: Seq<ProfileView>) -> bool {
    forall|i: int, j: int|
        0 <= i < profiles.len() && 0 <= j < profiles.len() && i != j ==> profiles[i].id
            != profiles[j].id
}

/// Whether exactly one profile is active.
pub open spec fn one_active(profiles: Seq<ProfileView>) -> bool {
    exists|i: int|
        0 <= i < profiles.len() && (#[trigger] profiles[i]).is_active && forall|j: int|
            0 <= j < profiles.len() && j != i ==> !(#[trigger] profiles[j]).is_active
}

/// What a `Settings` stands for.
pub struct SettingsView {
    pub language: Seq<char>,
    pub mod_data_path: Seq<char>,
    pub profiles: Seq<ProfileView>,
}

impl SettingsView {
    /// Whether the settings are as they should be: no two profiles share an
    /// id, and exactly one profile is active.
    pub open spec fn wf(self) -> bool {
        distinct_ids(self.profiles) && one_active(self.profiles)
    }

    /// Whether there is a profile with the id `id`.
    pub open spec fn has_profile(self, id: Seq<char>) -> bool {
        position_of(self.profiles, id) < self.profiles.len()
    }

    /// The first profile with the id `id`.
    pub open spec fn profile(self, id: Seq<char>) -> Option<ProfileView> {
        if self.has_profile(id) {
            Some(self.profiles[position_of(self.profiles, id)])
        } else {
            None
        }
    }

    /// The first active profile.
    pub open spec fn active(self) -> Option<ProfileView> {
        if active_position(self.profiles) < self.profiles.len() {
            Some(self.profiles[active_position(self.profiles)])
        } else {
            None
        }
    }

    /// The settings with the profiles of the id `id` active and all others
    /// inactive.
    pub open spec fn activated(self, id: Seq<char>) -> SettingsView {
        SettingsView {
            profiles: Seq::new(
                self.profiles.len(),
                |i: int| ProfileView { is_active: self.profiles[i].id == id, ..self.profiles[i] },
            ),
            ..self
        }
    }

    /// The settings with `p` added at the end and made the active profile.
    pub open spec fn with_profile(self, p: ProfileView) -> SettingsView {
        (SettingsView { profiles: self.profiles.push(p), ..self }).activated(p.id)
    }

    /// The settings without the first profile of the id `id`.
    pub open spec fn without_profile(self, id: Seq<char>) -> SettingsView {
        if self.has_profile(id) {
            SettingsView { profiles: self.profiles.remove(position_of(self.profiles, id)), ..self }
        } else {
            self
        }
    }

    /// The settings after the profile `id` is removed. Where it was the
    /// active one, the profile `default` becomes active: the one among the
    /// remaining profiles, or else `fallback`, which is added.
    pub open spec fn removed(self, id: Seq<char>, fallback: ProfileView) -> SettingsView {
        let rest = self.without_profile(id);
        if self.profile(id) matches Some(p) && p.is_active {
            if rest.has_profile("default"@) {
                rest.activated("default"@)
            } else {
                rest.with_profile(fallback)
            }
        } else {
            rest
        }
    }

    /// The settings with `mods` as the mods of every profile of the id `id`.
    pub open spec fn with_status(self, id: Seq<char>, mods: Seq<ModView>) -> SettingsView {
        SettingsView {
            profiles: Seq::new(
                self.profiles.len(),
                |i: int|
                    if self.profiles[i].id == id {
                        ProfileView { mod_status: mods, ..self.profiles[i] }
                    } else {
                        self.profiles[i]
                    },
            ),
            ..self
        }
    }

    /// The settings with the first profile of the id `id` given the game
    /// executable `game_path` and, where `name` is a new name, that name
    /// and the directories of the folder `name`.
    pub open spec fn edited(
        self,
        app_data_dir: Seq<char>,
        id: Seq<char>,
        name: Seq<char>,
        game_path: Option<Seq<char>>,
    ) -> SettingsView {
        if self.has_profile(id) {
            let k = position_of(self.profiles, id);
            let p = self.profiles[k];
            let q = if p.name == name {
                ProfileView { game_path, ..p }
            } else {
                ProfileView {
                    name,
                    profile_path: layout_of(profile_dir_of(app_data_dir, name)),
                    game_path,
                    ..p
                }
            };
            SettingsView { profiles: self.profiles.update(k, q), ..self }
        } else {
            self
        }
    }
}

/// Why a change of the settings is refused.
#[derive(Clone, Copy, Debug, PartialEq, Eq, Structural)]
pub enum SettingsError {
    /// There is no profile of that id.
    ProfileNotFound,
    /// There is a profile of that id already.
    DuplicateId,
}

/// What is left to do on disk after a profile was removed.
#[derive(Debug)]
pub struct Removal {
    /// The root of the removed profile's directories: to be deleted whole.
    pub root: String,
    /// Whether the removed profile was the active one, so that the profile
    /// `default` has become active and has to be synchronised.
    pub default_activated: bool,
}

/// The move of a profile's directories that a new name asks for.
#[derive(Debug)]
pub struct Migration {
    pub from: String,
    pub to: String,
}

/// The settings of the application.
#[derive(Debug)]
pub struct Settings {
    pub language: String,
    pub mod_data_path: String,
    pub profiles: Vec<Profile>,
}

impl View for Settings {
    type V = SettingsView;

    open spec fn view(&self) -> SettingsView {
        SettingsView {
            language: self.language@,
            mod_data_path: self.mod_data_path@,
            profiles: self.profiles.deep_view(),
        }
    }
}

impl DeepView for Settings {
    type V = SettingsView;

    open spec fn deep_view(&self) -> SettingsView {
        self@
    }
}

/// Activating an id that one of the profiles has leaves exactly one
/// profile active.
pub proof fn lemma_activated_wf(s: SettingsView, id: Seq<char>)
    requires
        distinct_ids(s.profiles),
        s.has_profile(id),
    ensures
        s.activated(id).wf(),
        s.activated(id).active() matches Some(p) && p.id == id,
        forall|other: Seq<char>| s.activated(id).has_profile(other) == s.has_profile(other),
{
    let a = s.activated(id).profiles;
    let k = position_of(s.profiles, id);
    lemma_first_at(s.profiles, |p: ProfileView| p.id == id);
    assert(a[k].is_active);
    assert forall|j: int| 0 <= j < a.len() && j != k implies !(#[trigger] a[j]).is_active by {
        assert(s.profiles[j].id != s.profiles[k].id);
    }
    assert forall|j: int| 0 <= j < k implies !(|p: ProfileView| p.is_active)(a[j]) by {}
    lemma_first_at_is(a, |p: ProfileView| p.is_active, k);
    assert forall|other: Seq<char>| s.activated(id).has_profile(other) == s.has_profile(other) by {
        lemma_same_ids(s.profiles, a, other);
    }
}

/// Profiles with the same ids at the same places have an id at the same
/// position.
pub proof fn lemma_same_ids(a: Seq<ProfileView>, b: Seq<ProfileView>, id: Seq<char>)
    requires
        a.len() == b.len(),
        forall|i: int| 0 <= i < a.len() ==> a[i].id == b[i].id,
    ensures
        position_of(a, id) == position_of(b, id),
{
    let pred = |p: ProfileView| p.id == id;
    lemma_first_at(a, pred);
    let k = position_of(a, id);
    assert forall|j: int| 0 <= j < k implies !pred(b[j]) by {
        assert(!pred(a[j]));
    }
    if k < a.len() {
        assert(pred(a[k]));
    }
    lemma_first_at_is(b, pred, k);
}

/// Adding a profile with a new id leaves exactly one profile active: the
/// new one.
pub proof fn lemma_with_profile_wf(s: SettingsView, p: ProfileView)
    requires
        distinct_ids(s.profiles),
        !s.has_profile(p.id),
    ensures
        s.with_profile(p).wf(),
        s.with_profile(p).active() matches Some(q) && q.id == p.id,
{
    let grown = SettingsView { profiles: s.profiles.push(p), ..s };
    let pred = |q: ProfileView| q.id == p.id;
    lemma_first_at(s.profiles, pred);
    assert forall|i: int, j: int|
        0 <= i < grown.profiles.len() && 0 <= j < grown.profiles.len() && i != j implies grown.profiles[i].id
        != grown.profiles[j].id by {
        if i < s.profiles.len() {
            assert(grown.profiles[i] == s.profiles[i]);
            assert(!pred(s.profiles[i]));
        }
        if j < s.profiles.len() {
            assert(grown.profiles[j] == s.profiles[j]);
            assert(!pred(s.profiles[j]));
        }
    }
    assert forall|j: int| 0 <= j < s.profiles.len() implies !pred(grown.profiles[j]) by {
        assert(grown.profiles[j] == s.profiles[j]);
        assert(!pred(s.profiles[j]));
    }
    assert(pred(grown.profiles[s.profiles.len() as int]));
    lemma_first_at_is(grown.profiles, pred, s.profiles.len() as int);
    lemma_activated_wf(grown, p.id);
}

/// Removing a profile leaves exactly one profile active, whichever profile
/// it was.
pub proof fn lemma_removed_wf(s: SettingsView, id: Seq<char>, fallback: ProfileView)
    requires
        s.wf(),
        s.has_profile(id),
        fallback.id == "default"@,
    ensures
        s.removed(id, fallback).wf(),
        s.profile(id)->0.is_active ==> (s.removed(id, fallback).active() matches Some(p) && p.id
            == "default"@),
        !s.removed(id, fallback).has_profile(id) || id == "default"@,
{
    let pred = |p: ProfileView| p.id == id;
    let k = position_of(s.profiles, id);
    lemma_first_at(s.profiles, pred);
    let rest = s.without_profile(id);
    assert(rest.profiles == s.profiles.remove(k));
    assert forall|i: int| 0 <= i < rest.profiles.len() implies rest.profiles[i] == s.profiles[if i
        < k {
        i
    } else {
        i + 1
    }] by {}
    assert(distinct_ids(rest.profiles)) by {
        assert forall|i: int, j: int|
            0 <= i < rest.profiles.len() && 0 <= j < rest.profiles.len() && i != j implies rest.profiles[i].id
            != rest.profiles[j].id by {
            let i2 = if i < k {
                i
            } else {
                i + 1
            };
            let j2 = if j < k {
                j
            } else {
                j + 1
            };
            assert(s.profiles[i2].id != s.profiles[j2].id);
        }
    }
    assert forall|i: int| 0 <= i < rest.profiles.len() implies !pred(rest.profiles[i]) by {
        let i2 = if i < k {
            i
        } else {
            i + 1
        };
        assert(s.profiles[i2].id != s.profiles[k].id);
    }
    lemma_first_at_is(rest.profiles, pred, rest.profiles.len() as int);
    assert(!rest.has_profile(id));
    let w = choose|w: int|
        0 <= w < s.profiles.len() && (#[trigger] s.profiles[w]).is_active && forall|j: int|
            0 <= j < s.profiles.len() && j != w ==> !(#[trigger] s.profiles[j]).is_active;
    if s.profiles[k].is_active {
        assert(w == k);
        if rest.has_profile("default"@) {
            lemma_activated_wf(rest, "default"@);
        } else {
            lemma_with_profile_wf(rest, fallback);
            let grown = SettingsView { profiles: rest.profiles.push(fallback), ..rest };
            lemma_same_ids(grown.profiles, rest.with_profile(fallback).profiles, id);
            if id != "default"@ {
                assert forall|i: int| 0 <= i < grown.profiles.len() implies !pred(
                    grown.profiles[i],
                ) by {
                    if i < rest.profiles.len() {
                        assert(grown.profiles[i] == rest.profiles[i]);
                    }
                }
                lemma_first_at_is(grown.profiles, pred, grown.profiles.len() as int);
            }
        }
    } else {
        assert(w != k);
        let w2 = if w < k {
            w
        } else {
            w - 1
        };
        assert(rest.profiles[w2] == s.profiles[w]);
        assert forall|j: int| 0 <= j < rest.profiles.len() && j != w2 implies !(
        #[trigger] rest.profiles[j]).is_active by {
            let j2 = if j < k {
                j
            } else {
                j + 1
            };
            assert(rest.profiles[j] == s.profiles[j2]);
        }
    }
}

/// Changing the mods of a profile, or its name, directories and game
/// executable, changes neither an id nor which profile is active.
pub proof fn lemma_same_flags_wf(a: Seq<ProfileView>, b: Seq<ProfileView>)
    requires
        a.len() == b.len(),
        forall|i: int| 0 <= i < a.len() ==> a[i].id == b[i].id && a[i].is_active == b[i].is_active,
        distinct_ids(a),
        one_active(a),
    ensures
        distinct_ids(b),
        one_active(b),
{
    assert forall|i: int, j: int| 0 <= i < b.len() && 0 <= j < b.len() && i != j implies b[i].id
        != b[j].id by {
        assert(a[i].id != a[j].id);
    }
    let w = choose|w: int|
        0 <= w < a.len() && (#[trigger] a[w]).is_active && forall|j: int|
            0 <= j < a.len() && j != w ==> !(#[trigger] a[j]).is_active;
    assert(b[w].is_active);
    assert forall|j: int| 0 <= j < b.len() && j != w implies !(#[trigger] b[j]).is_active by {
        assert(!a[j].is_active);
    }
}

/// A change of the set of profiles.
pub enum Change {
    /// A profile is added.
    Add(ProfileView),
    /// The profile of this id is removed.
    Remove(Seq<char>),
    /// The profile of this id is made the active one.
    Activate(Seq<char>),
}

impl SettingsView {
    /// The settings after one change, as `add_profile`, `remove_profile`
    /// and `set_active_profile` make it. A change that is refused leaves
    /// the settings as they are.
    pub open spec fn after(self, change: Change, fallback: ProfileView) -> SettingsView {
        match change {
            Change::Add(p) => if self.has_profile(p.id) {
                self
            } else {
                self.with_profile(p)
            },
            Change::Remove(id) => if self.has_profile(id) {
                self.removed(id, fallback)
            } else {
                self
            },
            Change::Activate(id) => if self.has_profile(id) {
                self.activated(id)
            } else {
                self
            },
        }
    }

    /// The settings after the changes `changes`, one after the other.
    pub open spec fn after_all(self, changes: Seq<Change>, fallback: ProfileView) -> SettingsView
        decreases changes.len(),
    {
        if changes.len() == 0 {
            self
        } else {
            self.after_all(changes.drop_last(), fallback).after(changes.last(), fallback)
        }
    }
}

/// After any sequence of adding, removing and activating profiles, exactly
/// one profile is active, also where the active profile was removed.
pub proof fn lemma_one_active_always(s: SettingsView, changes: Seq<Change>, fallback: ProfileView)
    requires
        s.wf(),
        fallback.id == "default"@,
    ensures
        s.after_all(changes, fallback).wf(),
    decreases changes.len(),
{
    if changes.len() > 0 {
        let before = s.after_all(changes.drop_last(), fallback);
        lemma_one_active_always(s, changes.drop_last(), fallback);
        match changes.last() {
            Change::Add(p) => {
                if !before.has_profile(p.id) {
                    lemma_with_profile_wf(before, p);
                }
            },
            Change::Remove(id) => {
                if before.has_profile(id) {
                    lemma_removed_wf(before, id, fallback);
                }
            },
            Change::Activate(id) => {
                if before.has_profile(id) {
                    lemma_activated_wf(before, id);
                }
            },
        }
    }
}

impl Settings {
    /// The settings of a first run: the language `ja`, the store under the
    /// application's data directory, and the profile `default`, active.
    pub fn default_in(app_data_dir: &str) -> (r: Settings)
        ensures
            r@ == (SettingsView {
                language: "ja"@,
                mod_data_path: moddata_dir_of(app_data_dir@),
                profiles: seq![default_profile(app_data_dir@)],
            }),
            r@.wf(),
    {
        let mut profiles: Vec<Profile> = Vec::new();
        profiles.push(Profile::default_in(app_data_dir));
        let r = Settings {
            language: "ja".to_owned(),
            mod_data_path: moddata_dir(app_data_dir),
            profiles,
        };
        proof {
            assert(r@.profiles =~= seq![default_profile(app_data_dir@)]);
            assert(r@.profiles[0].is_active);
        }
        r
    }

    /// The position of the first profile of the id `id`.
    pub fn find(&self, id: &str) -> (r: Option<usize>)
        ensures
            match r {
                Some(k) => self@.has_profile(id@) && k == position_of(self@.profiles, id@),
                None => !self@.has_profile(id@),
            },
    {
        let ghost pred = |p: ProfileView| p.id == id@;
        let mut i: usize = 0;
        while i < self.profiles.len()
            invariant
                i <= self.profiles.len(),
                pred == (|p: ProfileView| p.id == id@),
                forall|j: int| 0 <= j < i ==> !pred(self@.profiles[j]),
            decreases self.profiles.len() - i,
        {
            if str_eq(self.profiles[i].id.as_str(), id) {
                proof {
                    assert(pred(self@.profiles[i as int]));
                    lemma_first_at_is(self@.profiles, pred, i as int);
                }
                return Some(i);
            }
            i += 1;
        }
        proof {
            lemma_first_at_is(self@.profiles, pred, i as int);
        }
        None
    }

    /// The first profile of the id `id`.
    pub fn get(&self, id: &str) -> (r: Option<&Profile>)
        ensures
            r.deep_view() == self@.profile(id@),
    {
        match self.find(id) {
            Some(k) => Some(&self.profiles[k]),
            None => None,
        }
    }

    /// The active profile, if one is marked active.
    pub fn active_profile(&self) -> (r: Option<&Profile>)
        ensures
            r.deep_view() == self@.active(),
    {
        let ghost pred = |p: ProfileView| p.is_active;
        let mut i: usize = 0;
        while i < self.profiles.len()
            invariant
                i <= self.profiles.len(),
                pred == (|p: ProfileView| p.is_active),
                forall|j: int| 0 <= j < i ==> !pred(self@.profiles[j]),
            decreases self.profiles.len() - i,
        {
            if self.profiles[i].is_active {
                proof {
                    assert(pred(self@.profiles[i as int]));
                    lemma_first_at_is(self@.profiles, pred, i as int);
                }
                return Some(&self.profiles[i]);
            }
            i += 1;
        }
        proof {
            lemma_first_at_is(self@.profiles, pred, i as int);
        }
        None
    }

    /// The active profile. Where none is marked active, the profile
    /// `default` as it is when new.
    pub fn get_active_profile(&self, app_data_dir: &str) -> (r: Profile)
        ensures
            r@ == match self@.active() {
                Some(p) => p,
                None => default_profile(app_data_dir@),
            },
    {
        match self.active_profile() {
            Some(p) => p.clone(),
            None => Profile::default_in(app_data_dir),
        }
    }

    /// The mod directory of the active profile: the link farm.
    pub fn get_game_mod_dir(&self, app_data_dir: &str) -> (r: String)
        ensures
            r@ == match self@.active() {
                Some(p) => p.profile_path.mods,
                None => default_profile(app_data_dir@).profile_path.mods,
            },
    {
        match self.active_profile() {
            Some(p) => p.profile_path.mods.clone(),
            None => Profile::default_in(app_data_dir).profile_path.mods,
        }
    }

    /// The shared mod store.
    pub fn get_mod_data_dir(&self) -> (r: String)
        ensures
            r@ == self@.mod_data_path,
    {
        self.mod_data_path.clone()
    }

    /// Sets the language.
    pub fn set_language(&mut self, lang: &str)
        ensures
            final(self)@ == (SettingsView { language: lang@, ..old(self)@ }),
    {
        self.language = lang.to_owned();
    }

    /// Makes the profile `id` the active one. Fails with
    /// `ProfileNotFound`, and changes nothing, where there is none.
    pub fn set_active_profile(&mut self, id: &str) -> (r: Result<(), SettingsError>)
        ensures
            r is Ok <==> old(self)@.has_profile(id@),
            r is Err ==> r == Err::<(), SettingsError>(SettingsError::ProfileNotFound) && final(self)@ == old(self)@,
            r is Ok ==> final(self)@ == old(self)@.activated(id@),
            distinct_ids(old(self)@.profiles) ==> (r is Ok ==> final(self)@.wf()),
    {
        if self.find(id).is_none() {
            return Err(SettingsError::ProfileNotFound);
        }
        self.set_flags(id);
        proof {
            if distinct_ids(old(self)@.profiles) {
                lemma_activated_wf(old(self)@, id@);
            }
        }
        Ok(())
    }

    /// Marks the profiles of the id `id` active and all others inactive.
    fn set_flags(&mut self, id: &str)
        ensures
            final(self)@ == old(self)@.activated(id@),
    {
        let n = self.profiles.len();
        let mut i: usize = 0;
        while i < n
            invariant
                i <= n,
                n == self.profiles.len(),
                n == old(self).profiles.len(),
                self.language == old(self).language,
                self.mod_data_path == old(self).mod_data_path,
                forall|j: int|
                    0 <= j < i ==> self.profiles@[j]@ == (ProfileView {
                        is_active: old(self).profiles@[j]@.id == id@,
                        ..old(self).profiles@[j]@
                    }),
                forall|j: int| i <= j < n ==> self.profiles@[j] == old(self).profiles@[j],
            decreases n - i,
        {
            let on = str_eq(self.profiles[i].id.as_str(), id);
            self.profiles[i].is_active = on;
            i += 1;
        }
        proof {
            assert(self@.profiles =~= old(self)@.activated(id@).profiles);
        }
    }

    /// Adds `new_profile` and makes it the active profile. Fails with
    /// `DuplicateId`, and changes nothing, where a profile has its id.
    pub fn add_profile(&mut self, new_profile: Profile) -> (r: Result<(), SettingsError>)
        ensures
            r is Ok <==> !old(self)@.has_profile(new_profile@.id),
            r is Err ==> r == Err::<(), SettingsError>(SettingsError::DuplicateId) && final(self)@
                == old(self)@,
            r is Ok ==> final(self)@ == old(self)@.with_profile(new_profile@),
            distinct_ids(old(self)@.profiles) ==> (r is Ok ==> final(self)@.wf()),
    {
        if self.find(new_profile.id.as_str()).is_some() {
            return Err(SettingsError::DuplicateId);
        }
        let id = new_profile.id.clone();
        let ghost before = self.profiles.deep_view();
        self.profiles.push(new_profile);
        proof {
            assert(self.profiles.deep_view() =~= before.push(new_profile@));
        }
        self.set_flags(id.as_str());
        proof {
            if distinct_ids(old(self)@.profiles) {
                lemma_with_profile_wf(old(self)@, new_profile@);
            }
        }
        Ok(())
    }

    /// Removes the profile `id`. Where it was the active one, the profile
    /// `default` becomes active; where no profile `default` is left, a new
    /// one is added. Fails with `ProfileNotFound`, and changes nothing,
    /// where there is no profile `id`.
    pub fn remove_profile(&mut self, id: &str, app_data_dir: &str) -> (r: Result<
        Removal,
        SettingsError,
    >)
        ensures
            r is Ok <==> old(self)@.has_profile(id@),
            r is Err ==> r == Err::<Removal, SettingsError>(SettingsError::ProfileNotFound)
                && final(self)@ == old(self)@,
            r matches Ok(removal) ==> {
                &&& final(self)@ == old(self)@.removed(id@, default_profile(app_data_dir@))
                &&& removal.root@ == old(self)@.profile(id@)->0.profile_path.root
                &&& removal.default_activated == old(self)@.profile(id@)->0.is_active
                &&& old(self)@.wf() && removal.default_activated ==> (final(self)@.active() matches Some(
                    p,
                ) && p.id == "default"@)
            },
            old(self)@.wf() ==> final(self)@.wf(),
    {
        let k = match self.find(id) {
            Some(k) => k,
            None => {
                return Err(SettingsError::ProfileNotFound);
            },
        };
        let ghost before = self.profiles.deep_view();
        let gone = self.profiles.remove(k);
        proof {
            assert(self.profiles.deep_view() =~= before.remove(k as int));
            assert(gone@ == before[k as int]);
        }
        let was_active = gone.is_active;
        if was_active {
            if self.find("default").is_some() {
                self.set_flags("default");
            } else {
                let fallback = Profile::default_in(app_data_dir);
                let ghost rest = self.profiles.deep_view();
                self.profiles.push(fallback);
                proof {
                    assert(self.profiles.deep_view() =~= rest.push(fallback@));
                }
                self.set_flags("default");
            }
        }
        proof {
            if old(self)@.wf() {
                lemma_removed_wf(old(self)@, id@, default_profile(app_data_dir@));
            }
        }
        Ok(Removal { root: gone.profile_path.root, default_activated: was_active })
    }

    /// Gives the profile `id` the game executable `game_path` and, where
    /// `name` is a new name, that name and the directories of the folder
    /// `name`; the move of the directories is returned. Fails with
    /// `ProfileNotFound`, and changes nothing, where there is no profile
    /// `id`.
    pub fn edit_profile(
        &mut self,
        app_data_dir: &str,
        id: &str,
        name: String,
        game_path: Option<String>,
    ) -> (r: Result<Option<Migration>, SettingsError>)
        ensures
            r is Ok <==> old(self)@.has_profile(id@),
            r is Err ==> r == Err::<Option<Migration>, SettingsError>(
                SettingsError::ProfileNotFound,
            ),
            final(self)@ == old(self)@.edited(app_data_dir@, id@, name@, game_path.deep_view()),
            r matches Ok(Some(m)) ==> {
                &&& old(self)@.profile(id@)->0.name != name@
                &&& m.from@ == old(self)@.profile(id@)->0.profile_path.root
                &&& m.to@ == profile_dir_of(app_data_dir@, name@)
            },
            r matches Ok(None) ==> old(self)@.profile(id@)->0.name == name@,
            old(self)@.wf() ==> final(self)@.wf(),
    {
        let k = match self.find(id) {
            Some(k) => k,
            None => {
                return Err(SettingsError::ProfileNotFound);
            },
        };
        let ghost before = self.profiles.deep_view();
        let mut migration: Option<Migration> = None;
        if !str_eq(self.profiles[k].name.as_str(), name.as_str()) {
            let root = profile_dir(app_data_dir, name.as_str());
            migration = Some(
                Migration { from: self.profiles[k].profile_path.root.clone(), to: root.clone() },
            );
            self.profiles[k].profile_path = UserDataPaths::new(root);
            self.profiles[k].name = name;
        }
        self.profiles[k].game_path = game_path;
        proof {
            let now = self.profiles.deep_view();
            let want = old(self)@.edited(app_data_dir@, id@, name@, game_path.deep_view()).profiles;
            assert(now.len() == want.len());
            assert forall|i: int| 0 <= i < now.len() implies now[i] == want[i] by {
                if i != k {
                    assert(now[i] == before[i]);
                }
            }
            assert(now =~= want);
            if old(self)@.wf() {
                lemma_same_flags_wf(before, now);
            }
        }
        Ok(migration)
    }

    /// Replaces the mods of every profile of the id `id` by `mods`.
    pub fn replace_mod_status(&mut self, id: &str, mods: &Vec<Mod>)
        ensures
            final(self)@ == old(self)@.with_status(id@, mods.deep_view()),
            old(self)@.wf() ==> final(self)@.wf(),
    {
        let n = self.profiles.len();
        let mut i: usize = 0;
        while i < n
            invariant
                i <= n,
                n == self.profiles.len(),
                n == old(self).profiles.len(),
                self.language == old(self).language,
                self.mod_data_path == old(self).mod_data_path,
                forall|j: int|
                    0 <= j < i ==> self.profiles@[j]@ == old(self)@.with_status(
                        id@,
                        mods.deep_view(),
                    ).profiles[j],
                forall|j: int| i <= j < n ==> self.profiles@[j] == old(self).profiles@[j],
            decreases n - i,
        {
            if str_eq(self.profiles[i].id.as_str(), id) {
                self.profiles[i].mod_status = clone_mods(mods);
            }
            i += 1;
        }
        proof {
            assert(self@.profiles =~= old(self)@.with_status(id@, mods.deep_view()).profiles);
            if old(self)@.wf() {
                lemma_same_flags_wf(old(self)@.profiles, self@.profiles);
            }
        }
    }
}

} // verus!
