//! The synchronisation engine: installing and uninstalling mods of a
//! profile, activating a profile, and refreshing what a profile knows of
//! its mods.
//!
//! The engine works on what was read of the store and of the link farm,
//! and returns what is to be done on disk. The caller carries that out and
//! reads the disk again before the next rescan.

use vstd::prelude::*;
use crate::links::{
    count_named, distinct_names, has_entry, has_link, kept, lemma_entry_split, lemma_kept,
    lemma_kept_distinct, lemma_link_split, lemma_without, link_paths, without, DirEntryView,
    LinkError, LinkFarm, LinkFarmView,
};
use crate::model::{Mod, ModView};
use crate::paths::{file_name, file_name_of, is_component, lemma_file_name_is_component};
use crate::profile::{distinct_ids, Settings, SettingsError, SettingsView};
use crate::scanner::{
    lemma_link_seen, links_seen, reflects, scan, scanned, scanned_mod, sorted, CandidateView,
    ModStore, ModStoreView, ScanError,
};
use crate::text::str_eq;

verus! {

/// Whether `path` is a directory among the children of the store.
pub open spec fn is_store_dir(store: ModStoreView, path: Seq<char>) -> bool {
    match store.children {
        Some(children) => exists|i: int|
            0 <= i < children.len() && (#[trigger] children[i]).path == path && children[i].is_dir,
        None => false,
    }
}

/// What installing the mod at `path` returns: the path of the new link, or
/// why there is none. A path without a final component is no source.
pub open spec fn install_result(farm: LinkFarmView, source_is_dir: bool, path: Seq<char>) -> Result<
    Seq<char>,
    LinkError,
> {
    match file_name_of(path) {
        Some(name) => farm.create_result(source_is_dir, name),
        None => Err(LinkError::SourceInvalid),
    }
}

/// The link farm after the mod at `path` is installed.
pub open spec fn after_install(farm: LinkFarmView, source_is_dir: bool, path: Seq<char>) -> LinkFarmView {
    match file_name_of(path) {
        Some(name) => farm.after_create(source_is_dir, name),
        None => farm,
    }
}

/// The link farm after the mod at `path` is uninstalled.
pub open spec fn after_uninstall(farm: LinkFarmView, path: Seq<char>) -> LinkFarmView {
    match file_name_of(path) {
        Some(name) => farm.after_remove(name),
        None => farm,
    }
}

/// What uninstalling the mod at `path` removes: the path of the entry that
/// has the name of the mod's directory, if there is one.
pub open spec fn uninstall_result(farm: LinkFarmView, path: Seq<char>) -> Option<Seq<char>> {
    match file_name_of(path) {
        Some(name) => if has_entry(farm.entries, name) {
            Some(crate::paths::join_of(farm.dir, name))
        } else {
            None
        },
        None => None,
    }
}

/// The link farm after the mods at `paths` are installed one after the
/// other, each one that is a directory of the store.
pub open spec fn after_installs(farm: LinkFarmView, store: ModStoreView, paths: Seq<Seq<char>>) -> LinkFarmView
    decreases paths.len(),
{
    if paths.len() == 0 {
        farm
    } else {
        after_install(
            after_installs(farm, store, paths.drop_last()),
            is_store_dir(store, paths.last()),
            paths.last(),
        )
    }
}

/// The link farm after the mods at `paths` are uninstalled.
pub open spec fn after_uninstalls(farm: LinkFarmView, paths: Seq<Seq<char>>) -> LinkFarmView
    decreases paths.len(),
{
    if paths.len() == 0 {
        farm
    } else {
        after_uninstall(after_uninstalls(farm, paths.drop_last()), paths.last())
    }
}

/// What `r` says, with the path of the link as a sequence.
pub open spec fn outcome_of(r: Result<String, LinkError>) -> Result<Seq<char>, LinkError> {
    match r {
        Ok(path) => Ok(path@),
        Err(e) => Err(e),
    }
}

/// Whether `path` is a directory among the children of the store.
pub fn store_has_dir(store: &ModStore, path: &str) -> (r: bool)
    ensures
        r == is_store_dir(store@, path@),
{
    match &store.children {
        Some(children) => {
            let mut i: usize = 0;
            while i < children.len()
                invariant
                    i <= children.len(),
                    store@.children == Some(children.deep_view()),
                    forall|j: int|
                        0 <= j < i ==> !((#[trigger] children.deep_view()[j]).path == path@
                            && children.deep_view()[j].is_dir),
                decreases children.len() - i,
            {
                if children[i].is_dir && str_eq(children[i].path.as_str(), path) {
                    proof {
                        assert(children.deep_view()[i as int].path == path@);
                    }
                    return true;
                }
                i += 1;
            }
            false
        },
        None => false,
    }
}

/// Installs the mod at `mod_data_path`: links it into the farm under the
/// name of its directory. Fails with `SourceInvalid` where the source is no
/// directory or has no name, with `TargetExists` where the farm holds an
/// entry of that name, and with `DirNotFound` where the farm's directory is
/// missing. Returns the path of the link to create. A failure changes
/// nothing.
pub fn link_to_target_subdir(mod_data_path: &str, source_is_dir: bool, farm: &mut LinkFarm) -> (r:
    Result<String, LinkError>)
    ensures
        outcome_of(r) == install_result(old(farm)@, source_is_dir, mod_data_path@),
        final(farm)@ == after_install(old(farm)@, source_is_dir, mod_data_path@),
        old(farm)@.wf() ==> final(farm)@.wf(),
{
    match file_name(mod_data_path) {
        Some(name) => farm.create_link(source_is_dir, name.as_str()),
        None => Err(LinkError::SourceInvalid),
    }
}

/// Uninstalls the mod at `mod_data_path`: removes the entry that has the
/// name of its directory. Returns the path of the entry to remove, or
/// `None` where there is nothing to remove, which is no failure.
pub fn unlink_target_subdir(mod_data_path: &str, farm: &mut LinkFarm) -> (r: Option<String>)
    ensures
        r.deep_view() == uninstall_result(old(farm)@, mod_data_path@),
        final(farm)@ == after_uninstall(old(farm)@, mod_data_path@),
        old(farm)@.wf() ==> final(farm)@.wf(),
{
    match file_name(mod_data_path) {
        Some(name) => {
            let path = crate::paths::join(farm.dir.as_str(), name.as_str());
            match farm.remove_link(name.as_str()) {
                Ok(_) => Some(path),
                Err(_) => None,
            }
        },
        None => None,
    }
}

/// Installs the mods at `paths`, one after the other. A mod that cannot be
/// installed does not stop the others. Returns what became of each, in the
/// order of `paths`.
pub fn install_all(paths: &Vec<String>, store: &ModStore, farm: &mut LinkFarm) -> (r: Vec<
    Result<String, LinkError>,
>)
    ensures
        r.len() == paths.len(),
        forall|i: int|
            0 <= i < paths.len() ==> outcome_of(#[trigger] r@[i]) == install_result(
                after_installs(old(farm)@, store@, paths.deep_view().take(i)),
                is_store_dir(store@, paths.deep_view()[i]),
                paths.deep_view()[i],
            ),
        final(farm)@ == after_installs(old(farm)@, store@, paths.deep_view()),
        old(farm)@.wf() ==> final(farm)@.wf(),
{
    let mut r: Vec<Result<String, LinkError>> = Vec::new();
    let ghost all = paths.deep_view();
    proof {
        assert(all.take(0) =~= Seq::<Seq<char>>::empty());
    }
    let mut i: usize = 0;
    while i < paths.len()
        invariant
            i <= paths.len(),
            all == paths.deep_view(),
            r.len() == i,
            forall|j: int|
                0 <= j < i ==> outcome_of(#[trigger] r@[j]) == install_result(
                    after_installs(old(farm)@, store@, all.take(j)),
                    is_store_dir(store@, all[j]),
                    all[j],
                ),
            farm@ == after_installs(old(farm)@, store@, all.take(i as int)),
            old(farm)@.wf() ==> farm@.wf(),
        decreases paths.len() - i,
    {
        proof {
            let t = all.take(i as int + 1);
            assert(t.drop_last() =~= all.take(i as int));
            assert(t.last() == all[i as int]);
        }
        let is_dir = store_has_dir(store, paths[i].as_str());
        let outcome = link_to_target_subdir(paths[i].as_str(), is_dir, farm);
        r.push(outcome);
        i += 1;
    }
    proof {
        assert(all.take(i as int) =~= all);
    }
    r
}

/// Uninstalls the mods at `paths`, one after the other. Returns the path
/// of the entry removed for each, in the order of `paths`: `None` where
/// there was nothing to remove.
pub fn uninstall_all(paths: &Vec<String>, farm: &mut LinkFarm) -> (r: Vec<Option<String>>)
    ensures
        r.len() == paths.len(),
        forall|i: int|
            0 <= i < paths.len() ==> (#[trigger] r@[i]).deep_view() == uninstall_result(
                after_uninstalls(old(farm)@, paths.deep_view().take(i)),
                paths.deep_view()[i],
            ),
        final(farm)@ == after_uninstalls(old(farm)@, paths.deep_view()),
        old(farm)@.wf() ==> final(farm)@.wf(),
{
    let mut r: Vec<Option<String>> = Vec::new();
    let ghost all = paths.deep_view();
    proof {
        assert(all.take(0) =~= Seq::<Seq<char>>::empty());
    }
    let mut i: usize = 0;
    while i < paths.len()
        invariant
            i <= paths.len(),
            all == paths.deep_view(),
            r.len() == i,
            forall|j: int|
                0 <= j < i ==> (#[trigger] r@[j]).deep_view() == uninstall_result(
                    after_uninstalls(old(farm)@, all.take(j)),
                    all[j],
                ),
            farm@ == after_uninstalls(old(farm)@, all.take(i as int)),
            old(farm)@.wf() ==> farm@.wf(),
        decreases paths.len() - i,
    {
        proof {
            let t = all.take(i as int + 1);
            assert(t.drop_last() =~= all.take(i as int));
            assert(t.last() == all[i as int]);
        }
        let outcome = unlink_target_subdir(paths[i].as_str(), farm);
        r.push(outcome);
        i += 1;
    }
    proof {
        assert(all.take(i as int) =~= all);
    }
    r
}

/// The store paths of the mods in `mods` that are marked installed, in order.
pub open spec fn installed_paths(mods: Seq<ModView>) -> Seq<Seq<char>>
    decreases mods.len(),
{
    if mods.len() == 0 {
        Seq::empty()
    } else if mods.last().is_installed {
        installed_paths(mods.drop_last()).push(mods.last().local_path)
    } else {
        installed_paths(mods.drop_last())
    }
}

/// What a `Checkout` stands for.
pub struct CheckoutView {
    pub dir: Seq<char>,
    pub branch: Seq<char>,
}

/// A branch to check out in a mod's working copy.
#[derive(Debug, PartialEq, Eq)]
pub struct Checkout {
    pub dir: String,
    pub branch: String,
}

impl View for Checkout {
    type V = CheckoutView;

    open spec fn view(&self) -> CheckoutView {
        CheckoutView { dir: self.dir@, branch: self.branch@ }
    }
}

impl DeepView for Checkout {
    type V = CheckoutView;

    open spec fn deep_view(&self) -> CheckoutView {
        self@
    }
}

/// The branches to check out for `mods`: for each mod that is marked
/// installed and has a recorded version, the branch of that version, in order.
pub open spec fn checkouts_of(mods: Seq<ModView>) -> Seq<CheckoutView>
    decreases mods.len(),
{
    if mods.len() == 0 {
        Seq::empty()
    } else if mods.last().is_installed && mods.last().local_version is Some {
        checkouts_of(mods.drop_last()).push(
            CheckoutView {
                dir: mods.last().local_path,
                branch: mods.last().local_version->0.branch_name,
            },
        )
    } else {
        checkouts_of(mods.drop_last())
    }
}

/// Removing a name that no entry has changes nothing.
pub proof fn lemma_without_absent(entries: Seq<DirEntryView>, name: Seq<char>)
    requires
        !has_entry(entries, name),
    ensures
        without(entries, name) == entries,
    decreases entries.len(),
{
    if entries.len() > 0 {
        lemma_entry_split(entries, name);
        lemma_without_absent(entries.drop_last(), name);
        assert(entries.drop_last().push(entries.last()) =~= entries);
    } else {
        assert(without(entries, name) =~= entries);
    }
}

/// Uninstalling a mod twice is uninstalling it once: the second time
/// nothing is removed, nothing fails, and the link farm stays as it is.
pub proof fn lemma_uninstall_twice(farm: LinkFarmView, path: Seq<char>)
    ensures
        uninstall_result(after_uninstall(farm, path), path) is None,
        after_uninstall(after_uninstall(farm, path), path) == after_uninstall(farm, path),
{
    match file_name_of(path) {
        Some(name) => {
            lemma_without(farm.entries, name);
            lemma_without_absent(without(farm.entries, name), name);
        },
        None => {},
    }
}

/// A name that no entry has is counted once after one entry of it is added.
pub proof fn lemma_count_after_push(entries: Seq<DirEntryView>, entry: DirEntryView)
    requires
        !has_entry(entries, entry.name),
    ensures
        count_named(entries.push(entry), entry.name) == 1,
{
    crate::links::lemma_count_named(entries, entry.name);
    assert(entries.push(entry).drop_last() =~= entries);
}

/// Installing a mod that is installed fails with `TargetExists` and leaves
/// the link farm as it is, with exactly one entry for the mod.
pub proof fn lemma_install_twice(farm: LinkFarmView, source_is_dir: bool, path: Seq<char>)
    requires
        install_result(farm, source_is_dir, path) is Ok,
    ensures
        install_result(after_install(farm, source_is_dir, path), source_is_dir, path) == Err::<
            Seq<char>,
            LinkError,
        >(LinkError::TargetExists),
        after_install(after_install(farm, source_is_dir, path), source_is_dir, path)
            == after_install(farm, source_is_dir, path),
        count_named(
            after_install(farm, source_is_dir, path).entries,
            file_name_of(path)->0,
        ) == 1,
{
    let name = file_name_of(path)->0;
    let entry = DirEntryView { name, is_link: true };
    let after = after_install(farm, source_is_dir, path);
    assert(after.entries == farm.entries.push(entry));
    assert(after.entries[farm.entries.len() as int].name == name);
    lemma_count_after_push(farm.entries, entry);
}

/// A path is among the installed paths exactly where a mod that is marked
/// installed has it.
pub proof fn lemma_installed_paths(mods: Seq<ModView>, path: Seq<char>)
    ensures
        installed_paths(mods).contains(path) <==> exists|i: int|
            0 <= i < mods.len() && (#[trigger] mods[i]).is_installed && mods[i].local_path == path,
    decreases mods.len(),
{
    let here = exists|i: int|
        0 <= i < mods.len() && (#[trigger] mods[i]).is_installed && mods[i].local_path == path;
    if mods.len() > 0 {
        let front = mods.drop_last();
        let last = mods.last();
        lemma_installed_paths(front, path);
        let there = exists|i: int|
            0 <= i < front.len() && (#[trigger] front[i]).is_installed && front[i].local_path
                == path;
        let ip = installed_paths(mods);
        let ipf = installed_paths(front);
        if there {
            let i = choose|i: int|
                0 <= i < front.len() && (#[trigger] front[i]).is_installed && front[i].local_path
                    == path;
            assert(mods[i].is_installed && mods[i].local_path == path);
        }
        if here {
            let i = choose|i: int|
                0 <= i < mods.len() && (#[trigger] mods[i]).is_installed && mods[i].local_path
                    == path;
            if i < front.len() {
                assert(front[i].is_installed && front[i].local_path == path);
            }
        }
        if last.is_installed {
            assert(ip == ipf.push(last.local_path));
            if ipf.contains(path) {
                let i = choose|i: int| 0 <= i < ipf.len() && ipf[i] == path;
                assert(ip[i] == path);
            }
            if ip.contains(path) {
                let i = choose|i: int| 0 <= i < ip.len() && ip[i] == path;
                if i < ipf.len() {
                    assert(ipf[i] == path);
                }
            }
            if last.local_path == path {
                assert(ip[ip.len() - 1] == path);
                assert(mods[mods.len() - 1].is_installed);
            }
        }
    }
}

/// A mod is in a scan exactly where a child of the store is that mod.
pub proof fn lemma_scanned_contains(children: Seq<CandidateView>, links: Seq<Seq<char>>, m: ModView)
    ensures
        scanned(children, links).contains(m) <==> exists|k: int|
            0 <= k < children.len() && #[trigger] scanned_mod(children[k], links) == Some(m),
    decreases children.len(),
{
    let here = exists|k: int|
        0 <= k < children.len() && #[trigger] scanned_mod(children[k], links) == Some(m);
    if children.len() > 0 {
        let front = children.drop_last();
        let last = children.last();
        lemma_scanned_contains(front, links, m);
        let there = exists|k: int|
            0 <= k < front.len() && #[trigger] scanned_mod(front[k], links) == Some(m);
        let s = scanned(children, links);
        let sf = scanned(front, links);
        if there {
            let k = choose|k: int|
                0 <= k < front.len() && #[trigger] scanned_mod(front[k], links) == Some(m);
            assert(scanned_mod(children[k], links) == Some(m));
        }
        if here {
            let k = choose|k: int|
                0 <= k < children.len() && #[trigger] scanned_mod(children[k], links) == Some(m);
            if k < front.len() {
                assert(scanned_mod(front[k], links) == Some(m));
            }
        }
        match scanned_mod(last, links) {
            Some(found) => {
                assert(s == sf.push(found));
                if sf.contains(m) {
                    let i = choose|i: int| 0 <= i < sf.len() && sf[i] == m;
                    assert(s[i] == m);
                }
                if s.contains(m) {
                    let i = choose|i: int| 0 <= i < s.len() && s[i] == m;
                    if i < sf.len() {
                        assert(sf[i] == m);
                    }
                }
                if found == m {
                    assert(s[s.len() - 1] == m);
                    assert(scanned_mod(children[children.len() - 1], links) == Some(m));
                }
            },
            None => {},
        }
    }
}

/// Whether one of `paths` is a directory of the store with the final
/// component `name`.
pub open spec fn wanted(store: ModStoreView, paths: Seq<Seq<char>>, name: Seq<char>) -> bool {
    exists|i: int|
        0 <= i < paths.len() && #[trigger] file_name_of(paths[i]) == Some(name) && is_store_dir(
            store,
            paths[i],
        )
}

/// Installing mods adds a link for every name that is wanted and free, and
/// changes nothing else.
pub proof fn lemma_after_installs(
    farm: LinkFarmView,
    store: ModStoreView,
    paths: Seq<Seq<char>>,
    name: Seq<char>,
)
    ensures
        has_link(after_installs(farm, store, paths).entries, name) <==> has_link(
            farm.entries,
            name,
        ) || (farm.present && !has_entry(farm.entries, name) && wanted(store, paths, name)),
        has_entry(after_installs(farm, store, paths).entries, name) <==> has_entry(
            farm.entries,
            name,
        ) || (farm.present && wanted(store, paths, name)),
        after_installs(farm, store, paths).dir == farm.dir,
        after_installs(farm, store, paths).present == farm.present,
        farm.wf() ==> after_installs(farm, store, paths).wf(),
    decreases paths.len(),
{
    if paths.len() > 0 {
        let front = paths.drop_last();
        let last = paths.last();
        let prev = after_installs(farm, store, front);
        let after = after_installs(farm, store, paths);
        let ok = is_store_dir(store, last);
        lemma_after_installs(farm, store, front, name);
        if wanted(store, front, name) {
            let i = choose|i: int|
                0 <= i < front.len() && #[trigger] file_name_of(front[i]) == Some(name)
                    && is_store_dir(store, front[i]);
            assert(file_name_of(paths[i]) == Some(name) && is_store_dir(store, paths[i]));
        }
        if wanted(store, paths, name) {
            let i = choose|i: int|
                0 <= i < paths.len() && #[trigger] file_name_of(paths[i]) == Some(name)
                    && is_store_dir(store, paths[i]);
            if i < front.len() {
                assert(file_name_of(front[i]) == Some(name) && is_store_dir(store, front[i]));
            }
        }
        match file_name_of(last) {
            Some(n) => {
                lemma_file_name_is_component(last);
                if n == name && ok {
                    assert(file_name_of(paths[paths.len() - 1]) == Some(name));
                }
                if prev.create_result(ok, n) is Ok {
                    let entry = DirEntryView { name: n, is_link: true };
                    assert(after.entries == prev.entries.push(entry));
                    assert(after.entries.drop_last() =~= prev.entries);
                    lemma_link_split(after.entries, name);
                    lemma_entry_split(after.entries, name);
                    if farm.wf() {
                        assert forall|i: int, j: int|
                            0 <= i < after.entries.len() && 0 <= j < after.entries.len() && i
                                != j implies after.entries[i].name != after.entries[j].name by {
                            if i < prev.entries.len() {
                                assert(prev.entries[i].name == after.entries[i].name);
                            }
                            if j < prev.entries.len() {
                                assert(prev.entries[j].name == after.entries[j].name);
                            }
                        }
                        assert forall|i: int| 0 <= i < after.entries.len() implies is_component(
                            #[trigger] after.entries[i].name,
                        ) by {
                            if i < prev.entries.len() {
                                assert(prev.entries[i].name == after.entries[i].name);
                            }
                        }
                    }
                }
            },
            None => {},
        }
    }
}

/// After a profile is activated and its mods are scanned again, every mod
/// that the profile records is marked installed exactly where the link
/// farm holds a link under the name of the mod's directory.
pub proof fn lemma_activation_consistent(
    farm: LinkFarmView,
    store: ModStoreView,
    recorded: Seq<ModView>,
    rescanned: Seq<ModView>,
)
    requires
        farm.wf(),
        store.children is Some,
        rescanned.to_multiset() == scanned(
            store.children->0,
            links_seen(after_activation(farm, store, recorded)),
        ).to_multiset(),
    ensures
        forall|i: int|
            0 <= i < rescanned.len() ==> reflects(
                #[trigger] rescanned[i],
                after_activation(farm, store, recorded),
            ),
{
    let children = store.children->0;
    let after = after_activation(farm, store, recorded);
    let links = links_seen(after);
    lemma_kept_distinct(farm.entries);
    lemma_kept(farm.entries);
    lemma_after_installs(farm.cleared(), store, installed_paths(recorded), Seq::empty());
    assert forall|i: int| 0 <= i < rescanned.len() implies reflects(
        #[trigger] rescanned[i],
        after,
    ) by {
        let m = rescanned[i];
        assert(rescanned.contains(m));
        vstd::seq_lib::to_multiset_contains(rescanned, m);
        vstd::seq_lib::to_multiset_contains(scanned(children, links), m);
        lemma_scanned_contains(children, links, m);
        let k = choose|k: int|
            0 <= k < children.len() && #[trigger] scanned_mod(children[k], links) == Some(m);
        lemma_link_seen(after, file_name_of(m.local_path)->0);
    }
}

/// Whether the child `c` of the store is a mod.
pub open spec fn is_mod(c: CandidateView) -> bool {
    scanned_mod(c, Seq::empty()) is Some
}

/// Activating a profile a second time, after the rescan that follows the
/// first, leaves the link farm with the same names and the same links.
/// This holds where every directory of the store that the profile records
/// as an installed mod is still a mod.
pub proof fn lemma_activation_idempotent(
    farm: LinkFarmView,
    store: ModStoreView,
    recorded: Seq<ModView>,
    rescanned: Seq<ModView>,
)
    requires
        farm.wf(),
        store.children is Some,
        rescanned.to_multiset() == scanned(
            store.children->0,
            links_seen(after_activation(farm, store, recorded)),
        ).to_multiset(),
        forall|i: int, k: int|
            0 <= i < recorded.len() && 0 <= k < store.children->0.len() && (
            #[trigger] recorded[i]).is_installed && (#[trigger] store.children->0[k]).path
                == recorded[i].local_path && store.children->0[k].is_dir ==> is_mod(
                store.children->0[k],
            ),
    ensures
        forall|name: Seq<char>|
            has_link(
                after_activation(after_activation(farm, store, recorded), store, rescanned).entries,
                name,
            ) <==> has_link(after_activation(farm, store, recorded).entries, name),
        forall|name: Seq<char>|
            has_entry(
                after_activation(after_activation(farm, store, recorded), store, rescanned).entries,
                name,
            ) <==> has_entry(after_activation(farm, store, recorded).entries, name),
{
    let children = store.children->0;
    let first = after_activation(farm, store, recorded);
    let second = after_activation(first, store, rescanned);
    let links = links_seen(first);
    let ip0 = installed_paths(recorded);
    let ip1 = installed_paths(rescanned);
    lemma_kept_distinct(farm.entries);
    lemma_kept(farm.entries);
    assert(farm.cleared().wf());
    assert forall|name: Seq<char>|
        (has_link(second.entries, name) <==> has_link(first.entries, name)) && (has_entry(
            second.entries,
            name,
        ) <==> has_entry(first.entries, name)) by {
        lemma_after_installs(farm.cleared(), store, ip0, name);
        lemma_after_installs(first.cleared(), store, ip1, name);
        lemma_kept(first.entries);
        lemma_link_seen(first, name);
        // A name that is wanted the second time is linked after the first.
        if wanted(store, ip1, name) {
            let i = choose|i: int|
                0 <= i < ip1.len() && #[trigger] file_name_of(ip1[i]) == Some(name) && is_store_dir(
                    store,
                    ip1[i],
                );
            assert(ip1.contains(ip1[i]));
            lemma_installed_paths(rescanned, ip1[i]);
            let j = choose|j: int|
                0 <= j < rescanned.len() && (#[trigger] rescanned[j]).is_installed
                    && rescanned[j].local_path == ip1[i];
            let m = rescanned[j];
            assert(rescanned.contains(m));
            vstd::seq_lib::to_multiset_contains(rescanned, m);
            vstd::seq_lib::to_multiset_contains(scanned(children, links), m);
            lemma_scanned_contains(children, links, m);
            assert(has_link(first.entries, name));
        }
        // A name that is linked after the first is wanted the second time.
        if has_link(first.entries, name) {
            assert(wanted(store, ip0, name));
            let i = choose|i: int|
                0 <= i < ip0.len() && #[trigger] file_name_of(ip0[i]) == Some(name) && is_store_dir(
                    store,
                    ip0[i],
                );
            assert(ip0.contains(ip0[i]));
            lemma_installed_paths(recorded, ip0[i]);
            let j = choose|j: int|
                0 <= j < recorded.len() && (#[trigger] recorded[j]).is_installed
                    && recorded[j].local_path == ip0[i];
            let k = choose|k: int|
                0 <= k < children.len() && (#[trigger] children[k]).path == ip0[i]
                    && children[k].is_dir;
            assert(is_mod(children[k]));
            let m = scanned_mod(children[k], links)->0;
            assert(scanned_mod(children[k], links) == Some(m));
            lemma_scanned_contains(children, links, m);
            vstd::seq_lib::to_multiset_contains(scanned(children, links), m);
            vstd::seq_lib::to_multiset_contains(rescanned, m);
            let j1 = choose|j1: int| 0 <= j1 < rescanned.len() && rescanned[j1] == m;
            assert(rescanned[j1].is_installed && rescanned[j1].local_path == ip0[i]);
            lemma_installed_paths(rescanned, ip0[i]);
            let i1 = choose|i1: int| 0 <= i1 < ip1.len() && ip1[i1] == ip0[i];
            assert(file_name_of(ip1[i1]) == Some(name) && is_store_dir(store, ip1[i1]));
            assert(wanted(store, ip1, name));
            // No entry that is no link has the name of a link.
            if has_entry(kept(first.entries), name) {
                let a = choose|a: int|
                    0 <= a < first.entries.len() && #[trigger] first.entries[a].name == name
                        && !first.entries[a].is_link;
                let b = choose|b: int|
                    0 <= b < first.entries.len() && #[trigger] first.entries[b].name == name
                        && first.entries[b].is_link;
                assert(a != b);
            }
        }
        // An entry of the first that is no link stays.
        if has_entry(first.entries, name) && !has_link(first.entries, name) {
            let a = choose|a: int| 0 <= a < first.entries.len() && #[trigger] first.entries[a].name == name;
            assert(!first.entries[a].is_link) by {
                if first.entries[a].is_link {
                    assert(first.entries[a].name == name && first.entries[a].is_link);
                }
            }
        }
        if has_entry(kept(first.entries), name) {
            let a = choose|a: int|
                0 <= a < first.entries.len() && #[trigger] first.entries[a].name == name
                    && !first.entries[a].is_link;
            assert(has_entry(first.entries, name));
        }
        if has_link(first.entries, name) {
            let b = choose|b: int|
                0 <= b < first.entries.len() && #[trigger] first.entries[b].name == name
                    && first.entries[b].is_link;
            assert(has_entry(first.entries, name));
        }
    }
}

/// The store paths of the mods in `mods` that are marked installed.
pub fn paths_to_install(mods: &Vec<Mod>) -> (r: Vec<String>)
    ensures
        r.deep_view() == installed_paths(mods.deep_view()),
{
    let mut r: Vec<String> = Vec::new();
    let ghost all = mods.deep_view();
    proof {
        assert(r.deep_view() =~= Seq::<Seq<char>>::empty());
        assert(all.take(0) =~= Seq::<ModView>::empty());
    }
    let mut i: usize = 0;
    while i < mods.len()
        invariant
            i <= mods.len(),
            all == mods.deep_view(),
            r.deep_view() == installed_paths(all.take(i as int)),
        decreases mods.len() - i,
    {
        let ghost before = r.deep_view();
        proof {
            let t = all.take(i as int + 1);
            assert(t.drop_last() =~= all.take(i as int));
            assert(t.last() == all[i as int]);
        }
        if mods[i].is_installed {
            r.push(mods[i].local_path.clone());
            proof {
                assert(r.deep_view() =~= before.push(all[i as int].local_path));
            }
        }
        i += 1;
    }
    proof {
        assert(all.take(i as int) =~= all);
    }
    r
}

/// The branches to check out for `mods`.
pub fn branches_to_check_out(mods: &Vec<Mod>) -> (r: Vec<Checkout>)
    ensures
        r.deep_view() == checkouts_of(mods.deep_view()),
{
    let mut r: Vec<Checkout> = Vec::new();
    let ghost all = mods.deep_view();
    proof {
        assert(r.deep_view() =~= Seq::<CheckoutView>::empty());
        assert(all.take(0) =~= Seq::<ModView>::empty());
    }
    let mut i: usize = 0;
    while i < mods.len()
        invariant
            i <= mods.len(),
            all == mods.deep_view(),
            r.deep_view() == checkouts_of(all.take(i as int)),
        decreases mods.len() - i,
    {
        let ghost before = r.deep_view();
        proof {
            let t = all.take(i as int + 1);
            assert(t.drop_last() =~= all.take(i as int));
            assert(t.last() == all[i as int]);
        }
        if mods[i].is_installed {
            match &mods[i].local_version {
                Some(version) => {
                    let c = Checkout {
                        dir: mods[i].local_path.clone(),
                        branch: version.branch_name.clone(),
                    };
                    r.push(c);
                    proof {
                        assert(r.deep_view() =~= before.push(c@));
                    }
                },
                None => {},
            }
        }
        i += 1;
    }
    proof {
        assert(all.take(i as int) =~= all);
    }
    r
}

/// What is to be done on disk to activate a profile, in this order: the
/// links to remove, the branches to check out, and the links to create.
#[derive(Debug)]
pub struct Activation {
    /// The paths of the links that were in the farm: all are removed.
    pub removed: Vec<String>,
    /// The branches to check out. One that cannot be checked out is passed over.
    pub checkouts: Vec<Checkout>,
    /// The store paths of the mods to link, in order.
    pub sources: Vec<String>,
    /// What becomes of each of `sources`: the path of its link, or why it
    /// gets none.
    pub links: Vec<Result<String, LinkError>>,
}

/// The link farm after a profile whose recorded mods are `mods` is
/// activated: cleared of its links, then with a link for every mod that is
/// marked installed, as far as each can be made.
pub open spec fn after_activation(farm: LinkFarmView, store: ModStoreView, mods: Seq<ModView>) -> LinkFarmView {
    after_installs(farm.cleared(), store, installed_paths(mods))
}

/// Activates the profile `id`. Fails with `ProfileNotFound`, and changes
/// nothing, where there is none. Otherwise the profile becomes the active
/// one, every link of the farm is removed, and every mod that the profile
/// records as installed is linked again; a mod that cannot be linked does
/// not stop the others.
pub fn activate(settings: &mut Settings, id: &str, store: &ModStore, farm: &mut LinkFarm) -> (r:
    Result<Activation, SettingsError>)
    ensures
        r is Ok <==> old(settings)@.has_profile(id@),
        r is Err ==> r == Err::<Activation, SettingsError>(SettingsError::ProfileNotFound)
            && final(settings)@ == old(settings)@ && final(farm)@ == old(farm)@,
        r matches Ok(a) ==> {
            let mods = old(settings)@.profile(id@)->0.mod_status;
            &&& final(settings)@ == old(settings)@.activated(id@)
            &&& final(farm)@ == after_activation(old(farm)@, store@, mods)
            &&& a.removed.deep_view() == link_paths(old(farm)@.dir, old(farm)@.entries)
            &&& a.checkouts.deep_view() == checkouts_of(mods)
            &&& a.sources.deep_view() == installed_paths(mods)
            &&& a.links.len() == a.sources.len()
            &&& forall|i: int|
                0 <= i < a.links.len() ==> outcome_of(#[trigger] a.links@[i]) == install_result(
                    after_installs(old(farm)@.cleared(), store@, installed_paths(mods).take(i)),
                    is_store_dir(store@, installed_paths(mods)[i]),
                    installed_paths(mods)[i],
                )
        },
        old(farm)@.wf() ==> final(farm)@.wf(),
        distinct_ids(old(settings)@.profiles) && r is Ok ==> final(settings)@.wf(),
{
    let k = match settings.find(id) {
        Some(k) => k,
        None => {
            return Err(SettingsError::ProfileNotFound);
        },
    };
    let sources = paths_to_install(&settings.profiles[k].mod_status);
    let checkouts = branches_to_check_out(&settings.profiles[k].mod_status);
    let _ = settings.set_active_profile(id);
    let removed = farm.clear_links();
    let links = install_all(&sources, store, farm);
    Ok(Activation { removed, checkouts, sources, links })
}

/// What stands at the path where the game keeps its saves.
#[derive(Clone, Copy, Debug, PartialEq, Eq, Structural)]
pub enum SaveDirState {
    /// Nothing.
    Absent,
    /// A link, left by an earlier activation.
    Link,
    /// A directory or a file of the user's.
    Real,
}

/// What a `SaveStep` stands for.
pub enum SaveStepView {
    RemoveLink(Seq<char>),
    Rename(Seq<char>, Seq<char>),
    Link(Seq<char>, Seq<char>),
}

/// One step of pointing the game's save path at a profile.
#[derive(Debug, PartialEq, Eq)]
pub enum SaveStep {
    /// Remove the link at this path.
    RemoveLink(String),
    /// Rename the entry at the first path to the second.
    Rename(String, String),
    /// Create a link to the first path at the second.
    Link(String, String),
}

impl View for SaveStep {
    type V = SaveStepView;

    open spec fn view(&self) -> SaveStepView {
        match self {
            SaveStep::RemoveLink(p) => SaveStepView::RemoveLink(p@),
            SaveStep::Rename(a, b) => SaveStepView::Rename(a@, b@),
            SaveStep::Link(a, b) => SaveStepView::Link(a@, b@),
        }
    }
}

impl DeepView for SaveStep {
    type V = SaveStepView;

    open spec fn deep_view(&self) -> SaveStepView {
        self@
    }
}

/// The steps that point the game's save path at the save directory of a
/// profile. Where the game keeps its saves with the profile anyway, there
/// are none. A stale link is removed; anything else in the way is renamed
/// to `backup`, never removed.
pub open spec fn save_steps(
    profile_scoped: bool,
    state: SaveDirState,
    game_save: Seq<char>,
    profile_save: Seq<char>,
    backup: Seq<char>,
) -> Seq<SaveStepView> {
    if profile_scoped {
        Seq::empty()
    } else {
        match state {
            SaveDirState::Absent => seq![SaveStepView::Link(profile_save, game_save)],
            SaveDirState::Link => seq![
                SaveStepView::RemoveLink(game_save),
                SaveStepView::Link(profile_save, game_save),
            ],
            SaveDirState::Real => seq![
                SaveStepView::Rename(game_save, backup),
                SaveStepView::Link(profile_save, game_save),
            ],
        }
    }
}

/// The steps that point the game's save path at the save directory of a
/// profile.
pub fn relink_save_dir(
    profile_scoped: bool,
    state: SaveDirState,
    game_save: &str,
    profile_save: &str,
    backup: &str,
) -> (r: Vec<SaveStep>)
    ensures
        r.deep_view() == save_steps(profile_scoped, state, game_save@, profile_save@, backup@),
{
    let mut r: Vec<SaveStep> = Vec::new();
    if !profile_scoped {
        match state {
            SaveDirState::Absent => {},
            SaveDirState::Link => {
                r.push(SaveStep::RemoveLink(game_save.to_owned()));
            },
            SaveDirState::Real => {
                r.push(SaveStep::Rename(game_save.to_owned(), backup.to_owned()));
            },
        }
        r.push(SaveStep::Link(profile_save.to_owned(), game_save.to_owned()));
    }
    proof {
        assert(r.deep_view() =~= save_steps(
            profile_scoped,
            state,
            game_save@,
            profile_save@,
            backup@,
        ));
    }
    r
}

/// Scans the store and records the result as the mods of the profile `id`.
/// Fails, and changes nothing, only where the store could not be read.
pub fn mutate_state_mod_status(settings: &mut Settings, id: &str, store: &ModStore, farm: &LinkFarm) -> (r:
    Result<Vec<Mod>, ScanError>)
    ensures
        match r {
            Ok(mods) => {
                &&& store@.children matches Some(children) && mods.deep_view().to_multiset()
                    == scanned(children, links_seen(farm@)).to_multiset()
                &&& sorted(mods.deep_view())
                &&& farm@.wf() ==> forall|i: int|
                    0 <= i < mods.len() ==> reflects(#[trigger] mods.deep_view()[i], farm@)
                &&& final(settings)@ == old(settings)@.with_status(id@, mods.deep_view())
            },
            Err(e) => store@.children is None && e == ScanError::StoreUnreadable && final(settings)@ == old(settings)@,
        },
        old(settings)@.wf() ==> final(settings)@.wf(),
{
    match scan(store, farm) {
        Ok(mods) => {
            settings.replace_mod_status(id, &mods);
            Ok(mods)
        },
        Err(e) => Err(e),
    }
}

} // verus!
