//! The scan of the mod store: which of its directories are mods, what each
//! one is, and whether the link farm holds it.

use vstd::prelude::*;
use crate::json::parsed;
use crate::links::{has_link, link_paths, LinkFarm, LinkFarmView};
use crate::model::{manifest_text_of, mod_le, Mod, ModInfo, ModView};
use crate::paths::{file_name, file_name_of, lemma_file_name_of_join};
use crate::text::{
    lemma_lex_le_antisymmetric, lemma_lex_le_total, lemma_lex_le_transitive, str_eq,
};
use crate::version::{version_of, RepoProbe, RepoProbeView};
use crate::model::LocalVersion;

verus! {

/// What a `Candidate` stands for.
pub struct CandidateView {
    pub path: Seq<char>,
    pub is_dir: bool,
    pub manifest: Option<Seq<char>>,
    pub probe: Option<RepoProbeView>,
}

/// One immediate child of the mod store, with what was read of it.
#[derive(Debug)]
pub struct Candidate {
    /// The path of the child.
    pub path: String,
    /// Whether the child is a directory.
    pub is_dir: bool,
    /// The text of its manifest file, if it has one that could be read.
    pub manifest: Option<String>,
    /// What was read of its repository, if it is one with a head.
    pub probe: Option<RepoProbe>,
}

impl View for Candidate {
    type V = CandidateView;

    open spec fn view(&self) -> CandidateView {
        CandidateView {
            path: self.path@,
            is_dir: self.is_dir,
            manifest: self.manifest.deep_view(),
            probe: self.probe.deep_view(),
        }
    }
}

impl DeepView for Candidate {
    type V = CandidateView;

    open spec fn deep_view(&self) -> CandidateView {
        self@
    }
}

/// What a `ModStore` stands for.
pub struct ModStoreView {
    pub path: Seq<char>,
    pub children: Option<Seq<CandidateView>>,
}

/// The mod store as it was read: its children, or `None` where the store
/// itself could not be read.
#[derive(Debug)]
pub struct ModStore {
    pub path: String,
    pub children: Option<Vec<Candidate>>,
}

impl View for ModStore {
    type V = ModStoreView;

    open spec fn view(&self) -> ModStoreView {
        ModStoreView { path: self.path@, children: self.children.deep_view() }
    }
}

impl DeepView for ModStore {
    type V = ModStoreView;

    open spec fn deep_view(&self) -> ModStoreView {
        self@
    }
}

/// Why a scan gives no result.
#[derive(Clone, Copy, Debug, PartialEq, Eq, Structural)]
pub enum ScanError {
    /// The store is missing or cannot be read.
    StoreUnreadable,
}

/// Whether one of `links` has the final component `name`.
pub open spec fn link_named(links: Seq<Seq<char>>, name: Seq<char>) -> bool {
    exists|i: int| 0 <= i < links.len() && #[trigger] file_name_of(links[i]) == Some(name)
}

/// The links that a scan sees: those of the directory, and none where the
/// directory is missing.
pub open spec fn links_seen(farm: LinkFarmView) -> Seq<Seq<char>> {
    if farm.present {
        link_paths(farm.dir, farm.entries)
    } else {
        Seq::empty()
    }
}

/// The mod that a child of the store is, if it is one: a directory with a
/// name and with a manifest that gives a descriptor. It counts as installed
/// where a link has the name of the directory.
pub open spec fn scanned_mod(c: CandidateView, links: Seq<Seq<char>>) -> Option<ModView> {
    match (c.manifest, file_name_of(c.path)) {
        (Some(text), Some(dir_name)) => match manifest_text_of(parsed(text)) {
            Ok(info) => if c.is_dir {
                Some(
                    ModView {
                        info,
                        local_version: version_of(c.probe),
                        is_installed: link_named(links, dir_name),
                        local_path: c.path,
                    },
                )
            } else {
                None
            },
            Err(_) => None,
        },
        _ => None,
    }
}

/// The mods among `children`, in the order of the children.
pub open spec fn scanned(children: Seq<CandidateView>, links: Seq<Seq<char>>) -> Seq<ModView>
    decreases children.len(),
{
    if children.len() == 0 {
        Seq::empty()
    } else {
        match scanned_mod(children.last(), links) {
            Some(m) => scanned(children.drop_last(), links).push(m),
            None => scanned(children.drop_last(), links),
        }
    }
}

/// Whether `mods` is in listing order.
pub open spec fn sorted(mods: Seq<ModView>) -> bool {
    forall|i: int, j: int| 0 <= i < j < mods.len() ==> mod_le(mods[i], mods[j])
}

/// Whether the installed flag of `m` says what the link farm holds under
/// the name of the directory of `m`.
pub open spec fn reflects(m: ModView, farm: LinkFarmView) -> bool {
    match file_name_of(m.local_path) {
        Some(name) => m.is_installed == has_link(farm.entries, name),
        None => false,
    }
}

/// Any two mods are comparable in listing order.
pub proof fn lemma_mod_le_total(a: ModView, b: ModView)
    ensures
        mod_le(a, b) || mod_le(b, a),
{
    lemma_lex_le_total(a.info.name, b.info.name);
    lemma_lex_le_total(a.local_path, b.local_path);
}

/// Listing order is transitive.
pub proof fn lemma_mod_le_transitive(a: ModView, b: ModView, c: ModView)
    requires
        mod_le(a, b),
        mod_le(b, c),
    ensures
        mod_le(a, c),
{
    if a.info.name == b.info.name && b.info.name == c.info.name {
        lemma_lex_le_transitive(a.local_path, b.local_path, c.local_path);
    } else if a.info.name == b.info.name || b.info.name == c.info.name {
    } else {
        lemma_lex_le_transitive(a.info.name, b.info.name, c.info.name);
        if a.info.name == c.info.name {
            lemma_lex_le_antisymmetric(a.info.name, b.info.name);
        }
    }
}

/// Two mods that are listed at or before each other have the same name and
/// the same path.
pub proof fn lemma_mod_le_antisymmetric(a: ModView, b: ModView)
    requires
        mod_le(a, b),
        mod_le(b, a),
    ensures
        a.info.name == b.info.name,
        a.local_path == b.local_path,
{
    if a.info.name == b.info.name {
        lemma_lex_le_antisymmetric(a.local_path, b.local_path);
    } else {
        lemma_lex_le_antisymmetric(a.info.name, b.info.name);
    }
}

/// In a directory as it can be, a link is seen under a name exactly where
/// the directory holds a link of that name.
pub proof fn lemma_link_seen(farm: LinkFarmView, name: Seq<char>)
    requires
        farm.wf(),
    ensures
        link_named(links_seen(farm), name) <==> has_link(farm.entries, name),
{
    if farm.present {
        lemma_link_paths(farm.dir, farm.entries, name);
    } else {
        assert(!has_link(farm.entries, name));
        assert(!link_named(links_seen(farm), name));
    }
}

/// The paths of the links have the names of the links as their final
/// components.
pub proof fn lemma_link_paths(dir: Seq<char>, entries: Seq<crate::links::DirEntryView>, name: Seq<char>)
    requires
        forall|i: int| 0 <= i < entries.len() ==> crate::paths::is_component(#[trigger] entries[i].name),
    ensures
        link_named(link_paths(dir, entries), name) <==> has_link(entries, name),
    decreases entries.len(),
{
    let paths = link_paths(dir, entries);
    if entries.len() == 0 {
        assert(!has_link(entries, name));
        assert(!link_named(paths, name));
    } else {
        let front = entries.drop_last();
        let last = entries.last();
        assert forall|i: int| 0 <= i < front.len() implies crate::paths::is_component(
            #[trigger] front[i].name,
        ) by {
            assert(front[i] == entries[i]);
        }
        lemma_link_paths(dir, front, name);
        crate::links::lemma_link_split(entries, name);
        let front_paths = link_paths(dir, front);
        if last.is_link {
            assert(crate::paths::is_component(entries[entries.len() - 1].name));
            lemma_file_name_of_join(dir, last.name);
            assert(paths == front_paths.push(crate::paths::join_of(dir, last.name)));
            if link_named(paths, name) {
                let i = choose|i: int|
                    0 <= i < paths.len() && #[trigger] file_name_of(paths[i]) == Some(name);
                if i < front_paths.len() {
                    assert(file_name_of(front_paths[i]) == Some(name));
                }
            }
            if link_named(front_paths, name) {
                let i = choose|i: int|
                    0 <= i < front_paths.len() && #[trigger] file_name_of(front_paths[i]) == Some(
                        name,
                    );
                assert(file_name_of(paths[i]) == Some(name));
            }
            if last.name == name {
                assert(file_name_of(paths[paths.len() - 1]) == Some(name));
            }
        }
    }
}

/// Whether no two mods have the same store path.
pub open spec fn distinct_paths(mods: Seq<ModView>) -> bool {
    forall|i: int, j: int|
        0 <= i < mods.len() && 0 <= j < mods.len() && i != j ==> mods[i].local_path
            != mods[j].local_path
}

/// Whether no two children have the same path, as in any listing of one
/// directory.
pub open spec fn distinct_children(children: Seq<CandidateView>) -> bool {
    forall|i: int, j: int|
        0 <= i < children.len() && 0 <= j < children.len() && i != j ==> children[i].path
            != children[j].path
}

/// Two sorted lists of the same mods, none of which share a path, are the
/// same list.
pub proof fn lemma_sorted_unique(a: Seq<ModView>, b: Seq<ModView>)
    requires
        sorted(a),
        sorted(b),
        a.to_multiset() == b.to_multiset(),
        distinct_paths(a),
    ensures
        a == b,
    decreases a.len(),
{
    vstd::seq_lib::to_multiset_len(a);
    vstd::seq_lib::to_multiset_len(b);
    if a.len() == 0 {
        assert(a =~= b);
    } else {
        vstd::seq_lib::to_multiset_contains(a, a[0]);
        vstd::seq_lib::to_multiset_contains(b, a[0]);
        vstd::seq_lib::to_multiset_contains(a, b[0]);
        vstd::seq_lib::to_multiset_contains(b, b[0]);
        assert(a.contains(a[0]));
        assert(b.contains(b[0]));
        let jb = choose|j: int| 0 <= j < b.len() && b[j] == a[0];
        let ia = choose|i: int| 0 <= i < a.len() && a[i] == b[0];
        if ia != 0 && jb != 0 {
            lemma_mod_le_antisymmetric(a[0], b[0]);
            assert(a[ia].local_path == a[0].local_path);
        }
        assert(a[0] == b[0]);
        let a1 = a.remove(0);
        let b1 = b.remove(0);
        vstd::seq_lib::to_multiset_remove(a, 0);
        vstd::seq_lib::to_multiset_remove(b, 0);
        assert forall|i: int, j: int| 0 <= i < j < a1.len() implies mod_le(a1[i], a1[j]) by {
            assert(a1[i] == a[i + 1] && a1[j] == a[j + 1]);
        }
        assert forall|i: int, j: int| 0 <= i < j < b1.len() implies mod_le(b1[i], b1[j]) by {
            assert(b1[i] == b[i + 1] && b1[j] == b[j + 1]);
        }
        assert forall|i: int, j: int|
            0 <= i < a1.len() && 0 <= j < a1.len() && i != j implies a1[i].local_path
            != a1[j].local_path by {
            assert(a1[i] == a[i + 1] && a1[j] == a[j + 1]);
        }
        lemma_sorted_unique(a1, b1);
        assert(a =~= seq![a[0]] + a1);
        assert(b =~= seq![b[0]] + b1);
    }
}

/// Leaving out one child leaves out the mod that it is, and no other.
pub proof fn lemma_scanned_remove(children: Seq<CandidateView>, j: int, links: Seq<Seq<char>>)
    requires
        0 <= j < children.len(),
    ensures
        scanned(children, links).to_multiset() == match scanned_mod(children[j], links) {
            Some(m) => scanned(children.remove(j), links).to_multiset().insert(m),
            None => scanned(children.remove(j), links).to_multiset(),
        },
    decreases children.len(),
{
    broadcast use vstd::multiset::group_multiset_axioms;

    let front = children.drop_last();
    let fewer = children.remove(j);
    if j == children.len() - 1 {
        assert(fewer =~= front);
        match scanned_mod(children[j], links) {
            Some(m) => {
                vstd::seq_lib::to_multiset_build(scanned(front, links), m);
            },
            None => {},
        }
    } else {
        lemma_scanned_remove(front, j, links);
        assert(fewer.drop_last() =~= front.remove(j));
        assert(fewer.last() == children.last());
        assert(front[j] == children[j]);
        match scanned_mod(children.last(), links) {
            Some(last) => {
                vstd::seq_lib::to_multiset_build(scanned(front, links), last);
                vstd::seq_lib::to_multiset_build(scanned(front.remove(j), links), last);
                match scanned_mod(children[j], links) {
                    Some(m) => {
                        assert(scanned(front.remove(j), links).to_multiset().insert(m).insert(last)
                            =~= scanned(front.remove(j), links).to_multiset().insert(last).insert(
                            m,
                        ));
                    },
                    None => {},
                }
            },
            None => {},
        }
    }
}

/// The same children in another order are the same mods, in some order.
pub proof fn lemma_scanned_permutation(
    c1: Seq<CandidateView>,
    c2: Seq<CandidateView>,
    links: Seq<Seq<char>>,
)
    requires
        c1.to_multiset() == c2.to_multiset(),
    ensures
        scanned(c1, links).to_multiset() == scanned(c2, links).to_multiset(),
    decreases c1.len(),
{
    vstd::seq_lib::to_multiset_len(c1);
    vstd::seq_lib::to_multiset_len(c2);
    if c1.len() == 0 {
        assert(c2 =~= c1);
    } else {
        let x = c1.last();
        let n = c1.len() - 1;
        vstd::seq_lib::to_multiset_contains(c1, x);
        vstd::seq_lib::to_multiset_contains(c2, x);
        assert(c1[n] == x);
        assert(c1.contains(x));
        let j = choose|j: int| 0 <= j < c2.len() && c2[j] == x;
        vstd::seq_lib::to_multiset_remove(c1, n);
        vstd::seq_lib::to_multiset_remove(c2, j);
        assert(c1.remove(n) =~= c1.drop_last());
        lemma_scanned_permutation(c1.drop_last(), c2.remove(j), links);
        lemma_scanned_remove(c2, j, links);
        match scanned_mod(x, links) {
            Some(m) => {
                vstd::seq_lib::to_multiset_build(scanned(c1.drop_last(), links), m);
            },
            None => {},
        }
    }
}

/// Every mod of a scan has the path of one of the children, and children
/// with paths of their own give mods with paths of their own.
pub proof fn lemma_scanned_paths(children: Seq<CandidateView>, links: Seq<Seq<char>>)
    ensures
        forall|i: int|
            0 <= i < scanned(children, links).len() ==> exists|k: int|
                0 <= k < children.len() && (#[trigger] children[k]).path == (#[trigger] scanned(
                    children,
                    links,
                )[i]).local_path,
        distinct_children(children) ==> distinct_paths(scanned(children, links)),
    decreases children.len(),
{
    if children.len() > 0 {
        let front = children.drop_last();
        let last = children.last();
        let s = scanned(children, links);
        let sf = scanned(front, links);
        lemma_scanned_paths(front, links);
        assert forall|i: int| 0 <= i < s.len() implies exists|k: int|
            0 <= k < children.len() && (#[trigger] children[k]).path == (#[trigger] s[i]).local_path by {
            if i < sf.len() {
                assert(s[i] == sf[i]);
                let k = choose|k: int|
                    0 <= k < front.len() && (#[trigger] front[k]).path == sf[i].local_path;
                assert(children[k].path == s[i].local_path);
            } else {
                assert(children[children.len() - 1].path == s[i].local_path);
            }
        }
        if distinct_children(children) {
            assert(distinct_children(front)) by {
                assert forall|i: int, j: int|
                    0 <= i < front.len() && 0 <= j < front.len() && i != j implies front[i].path
                    != front[j].path by {
                    assert(front[i] == children[i] && front[j] == children[j]);
                }
            }
            assert forall|i: int, j: int|
                0 <= i < s.len() && 0 <= j < s.len() && i != j implies s[i].local_path
                != s[j].local_path by {
                if i < sf.len() && j < sf.len() {
                    assert(s[i] == sf[i] && s[j] == sf[j]);
                } else {
                    let low = if i < j {
                        i
                    } else {
                        j
                    };
                    assert(s[low] == sf[low]);
                    let k = choose|k: int|
                        0 <= k < front.len() && (#[trigger] front[k]).path == sf[low].local_path;
                    assert(children[k].path != children[children.len() - 1].path);
                }
            }
        }
    }
}

/// Mods with paths of their own keep them in any order.
pub proof fn lemma_permutation_distinct(a: Seq<ModView>, b: Seq<ModView>)
    requires
        a.to_multiset() == b.to_multiset(),
        distinct_paths(a),
    ensures
        distinct_paths(b),
{
    assert(a.no_duplicates());
    a.lemma_multiset_has_no_duplicates();
    b.lemma_multiset_has_no_duplicates_conv();
    assert forall|i: int, j: int| 0 <= i < b.len() && 0 <= j < b.len() && i != j implies b[i].local_path
        != b[j].local_path by {
        vstd::seq_lib::to_multiset_contains(b, b[i]);
        vstd::seq_lib::to_multiset_contains(a, b[i]);
        vstd::seq_lib::to_multiset_contains(b, b[j]);
        vstd::seq_lib::to_multiset_contains(a, b[j]);
        assert(b.contains(b[i]));
        assert(b.contains(b[j]));
        let i2 = choose|k: int| 0 <= k < a.len() && a[k] == b[i];
        let j2 = choose|k: int| 0 <= k < a.len() && a[k] == b[j];
        assert(b[i] != b[j]);
        assert(i2 != j2);
    }
}

/// The result of a scan does not depend on the order in which the store
/// lists its children: two scans of the same children against the same
/// links return the same list.
pub proof fn lemma_scan_order_independent(
    c1: Seq<CandidateView>,
    c2: Seq<CandidateView>,
    links: Seq<Seq<char>>,
    r1: Seq<ModView>,
    r2: Seq<ModView>,
)
    requires
        distinct_children(c1),
        c1.to_multiset() == c2.to_multiset(),
        sorted(r1),
        r1.to_multiset() == scanned(c1, links).to_multiset(),
        sorted(r2),
        r2.to_multiset() == scanned(c2, links).to_multiset(),
    ensures
        r1 == r2,
{
    lemma_scanned_permutation(c1, c2, links);
    lemma_scanned_paths(c1, links);
    lemma_permutation_distinct(scanned(c1, links), r1);
    lemma_sorted_unique(r1, r2);
}


/// Whether one of `links` has the final component `name`.
pub fn any_link_named(links: &Vec<String>, name: &str) -> (r: bool)
    ensures
        r == link_named(links.deep_view(), name@),
{
    let mut i: usize = 0;
    while i < links.len()
        invariant
            i <= links.len(),
            forall|j: int| 0 <= j < i ==> file_name_of(links.deep_view()[j]) != Some(name@),
        decreases links.len() - i,
    {
        let found = match file_name(links[i].as_str()) {
            Some(n) => str_eq(n.as_str(), name),
            None => false,
        };
        if found {
            proof {
                assert(file_name_of(links.deep_view()[i as int]) == Some(name@));
            }
            return true;
        }
        i += 1;
    }
    false
}

/// The mod that a child of the store is, if it is one.
pub fn scan_candidate(c: &Candidate, links: &Vec<String>) -> (r: Option<Mod>)
    ensures
        r.deep_view() == scanned_mod(c@, links.deep_view()),
{
    let text = match &c.manifest {
        Some(t) => t,
        None => {
            return None;
        },
    };
    let dir_name = match file_name(c.path.as_str()) {
        Some(n) => n,
        None => {
            return None;
        },
    };
    let info = match ModInfo::from_manifest(text.as_str()) {
        Ok(info) => info,
        Err(_) => {
            return None;
        },
    };
    if !c.is_dir {
        return None;
    }
    let local_version = LocalVersion::probe(&c.probe);
    let is_installed = any_link_named(links, dir_name.as_str());
    Some(Mod { info, local_version, is_installed, local_path: c.path.clone() })
}

/// Puts `m` into the sorted list `out` at its place.
pub fn insert_sorted(out: &mut Vec<Mod>, m: Mod)
    requires
        sorted(old(out).deep_view()),
    ensures
        sorted(final(out).deep_view()),
        exists|k: int|
            0 <= k <= old(out).len() && final(out).deep_view() == #[trigger] old(
                out,
            ).deep_view().insert(k, m@),
        final(out).deep_view().to_multiset() == old(out).deep_view().to_multiset().insert(m@),
{
    let n = out.len();
    let mut k: usize = 0;
    let mut searching = true;
    while searching && k < n
        invariant
            k <= n,
            n == out.len(),
            *out == *old(out),
            forall|j: int| 0 <= j < k ==> mod_le(out.deep_view()[j], m@),
            !searching ==> k < n && !mod_le(out.deep_view()[k as int], m@),
        decreases n - k + if searching { 1int } else { 0int },
    {
        if out[k].le(&m) {
            k += 1;
        } else {
            searching = false;
        }
    }
    let ghost before = out.deep_view();
    out.insert(k, m);
    proof {
        let now = out.deep_view();
        assert(now =~= before.insert(k as int, m@));
        assert forall|i: int, j: int| 0 <= i < j < now.len() implies mod_le(now[i], now[j]) by {
            if j < k {
                assert(now[i] == before[i] && now[j] == before[j]);
            } else if j == k {
                assert(now[i] == before[i]);
            } else if i == k {
                assert(now[j] == before[j - 1]);
                lemma_mod_le_total(before[k as int], m@);
                if j - 1 > k {
                    lemma_mod_le_transitive(m@, before[k as int], before[j - 1]);
                }
            } else if i < k {
                assert(now[i] == before[i] && now[j] == before[j - 1]);
            } else {
                assert(now[i] == before[i - 1] && now[j] == before[j - 1]);
            }
        }
        vstd::seq_lib::to_multiset_insert(before, k as int, m@);
    }
}

/// Scans the store: every child that is a mod, with its version and with
/// whether the link farm holds it, in listing order. A child that is no
/// mod is passed over. A missing link directory counts as one without
/// links. Fails only where the store itself could not be read.
pub fn scan(store: &ModStore, farm: &LinkFarm) -> (r: Result<Vec<Mod>, ScanError>)
    ensures
        match r {
            Ok(mods) => store@.children matches Some(children) && sorted(mods.deep_view())
                && mods.deep_view().to_multiset() == scanned(
                children,
                links_seen(farm@),
            ).to_multiset() && (farm@.wf() ==> forall|i: int|
                0 <= i < mods.len() ==> reflects(#[trigger] mods.deep_view()[i], farm@)),
            Err(e) => store@.children is None && e == ScanError::StoreUnreadable,
        },
{
    let children = match &store.children {
        Some(c) => c,
        None => {
            return Err(ScanError::StoreUnreadable);
        },
    };
    let links = match farm.list_links() {
        Ok(l) => l,
        Err(_) => {
            let l: Vec<String> = Vec::new();
            proof {
                assert(l.deep_view() =~= Seq::<Seq<char>>::empty());
            }
            l
        },
    };
    let mut out: Vec<Mod> = Vec::new();
    let ghost all = children.deep_view();
    proof {
        assert(out.deep_view() =~= Seq::<ModView>::empty());
        assert(all.take(0) =~= Seq::<CandidateView>::empty());
    }
    let mut i: usize = 0;
    while i < children.len()
        invariant
            i <= children.len(),
            all == children.deep_view(),
            links.deep_view() == links_seen(farm@),
            sorted(out.deep_view()),
            out.deep_view().to_multiset() == scanned(
                all.take(i as int),
                links.deep_view(),
            ).to_multiset(),
            farm@.wf() ==> forall|j: int|
                0 <= j < out.len() ==> reflects(#[trigger] out.deep_view()[j], farm@),
        decreases children.len() - i,
    {
        let ghost before = out.deep_view();
        proof {
            let t = all.take(i as int + 1);
            assert(t.drop_last() =~= all.take(i as int));
            assert(t.last() == children@[i as int]@);
        }
        match scan_candidate(&children[i], &links) {
            Some(m) => {
                proof {
                    vstd::seq_lib::to_multiset_build(
                        scanned(all.take(i as int), links.deep_view()),
                        m@,
                    );
                    if farm@.wf() {
                        lemma_link_seen(farm@, file_name_of(m@.local_path)->0);
                    }
                }
                insert_sorted(&mut out, m);
                proof {
                    if farm@.wf() {
                        let now = out.deep_view();
                        let k = choose|k: int|
                            0 <= k <= before.len() && now == #[trigger] before.insert(k, m@);
                        assert forall|j: int| 0 <= j < now.len() implies reflects(
                            #[trigger] now[j],
                            farm@,
                        ) by {
                            if j < k {
                                assert(now[j] == before[j]);
                            } else if j > k {
                                assert(now[j] == before[j - 1]);
                            }
                        }
                    }
                }
            },
            None => {},
        }
        i += 1;
    }
    proof {
        assert(all.take(i as int) =~= all);
    }
    Ok(out)
}

} // verus!
