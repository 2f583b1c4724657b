//! The link farm of a profile: the entries of its mod directory, and the
//! rules of creating, removing and listing links in it.
//!
//! A `LinkFarm` is what was read of the directory. The operations change it
//! as the same operation changes the directory, so that a plan of several
//! steps can be made before any of them is carried out.

use vstd::prelude::*;
use crate::paths::{is_component, is_component_name, join, join_of};
use crate::text::str_eq;

verus! {

/// Why a link operation fails.
#[derive(Clone, Copy, Debug, PartialEq, Eq, Structural)]
pub enum LinkError {
    /// The source is missing, is no directory, or has no name to link under.
    SourceInvalid,
    /// The target path already holds an entry.
    TargetExists,
    /// There is no entry at the target path.
    NotFound,
    /// The directory itself is missing.
    DirNotFound,
}

/// What a `DirEntry` stands for.
pub struct DirEntryView {
    pub name: Seq<char>,
    pub is_link: bool,
}

/// One immediate child of the link directory.
#[derive(Debug)]
pub struct DirEntry {
    pub name: String,
    pub is_link: bool,
}

impl View for DirEntry {
    type V = DirEntryView;

    open spec fn view(&self) -> DirEntryView {
        DirEntryView { name: self.name@, is_link: self.is_link }
    }
}

impl DeepView for DirEntry {
    type V = DirEntryView;

    open spec fn deep_view(&self) -> DirEntryView {
        self@
    }
}

/// Whether some entry has the name `name`.
pub open spec fn has_entry(entries: Seq<DirEntryView>, name: Seq<char>) -> bool {
    exists|i: int| 0 <= i < entries.len() && #[trigger] entries[i].name == name
}

/// Whether some entry is a link of the name `name`.
pub open spec fn has_link(entries: Seq<DirEntryView>, name: Seq<char>) -> bool {
    exists|i: int| 0 <= i < entries.len() && #[trigger] entries[i].name == name && entries[i].is_link
}

/// How many entries have the name `name`.
pub open spec fn count_named(entries: Seq<DirEntryView>, name: Seq<char>) -> nat
    decreases entries.len(),
{
    if entries.len() == 0 {
        0
    } else {
        count_named(entries.drop_last(), name) + if entries.last().name == name {
            1nat
        } else {
            0nat
        }
    }
}

/// The entries other than those named `name`, in their order.
pub open spec fn without(entries: Seq<DirEntryView>, name: Seq<char>) -> Seq<DirEntryView>
    decreases entries.len(),
{
    if entries.len() == 0 {
        Seq::empty()
    } else if entries.last().name == name {
        without(entries.drop_last(), name)
    } else {
        without(entries.drop_last(), name).push(entries.last())
    }
}

/// The entries that are no links, in their order.
pub open spec fn kept(entries: Seq<DirEntryView>) -> Seq<DirEntryView>
    decreases entries.len(),
{
    if entries.len() == 0 {
        Seq::empty()
    } else if entries.last().is_link {
        kept(entries.drop_last())
    } else {
        kept(entries.drop_last()).push(entries.last())
    }
}

/// The paths of the entries that are links, in their order.
pub open spec fn link_paths(dir: Seq<char>, entries: Seq<DirEntryView>) -> Seq<Seq<char>>
    decreases entries.len(),
{
    if entries.len() == 0 {
        Seq::empty()
    } else if entries.last().is_link {
        link_paths(dir, entries.drop_last()).push(join_of(dir, entries.last().name))
    } else {
        link_paths(dir, entries.drop_last())
    }
}

/// Whether no two entries share a name.
pub open spec fn distinct_names(entries: Seq<DirEntryView>) -> bool {
    forall|i: int, j: int|
        0 <= i < entries.len() && 0 <= j < entries.len() && i != j ==> entries[i].name
            != entries[j].name
}

/// What a `LinkFarm` stands for.
pub struct LinkFarmView {
    pub dir: Seq<char>,
    pub present: bool,
    pub entries: Seq<DirEntryView>,
}

impl LinkFarmView {
    /// What a directory can look like: a missing directory has no entries,
    /// every entry has a name that a directory entry can have, and no two
    /// entries share a name.
    pub open spec fn wf(self) -> bool {
        &&& !self.present ==> self.entries.len() == 0
        &&& distinct_names(self.entries)
        &&& forall|i: int| 0 <= i < self.entries.len() ==> is_component(#[trigger] self.entries[i].name)
    }

    /// What `create_link` returns for a link named `name`.
    pub open spec fn create_result(self, source_is_dir: bool, name: Seq<char>) -> Result<
        Seq<char>,
        LinkError,
    > {
        if !source_is_dir || !is_component(name) {
            Err(LinkError::SourceInvalid)
        } else if has_entry(self.entries, name) {
            Err(LinkError::TargetExists)
        } else if !self.present {
            Err(LinkError::DirNotFound)
        } else {
            Ok(join_of(self.dir, name))
        }
    }

    /// The directory after `create_link`: one more link where it succeeds,
    /// no change where it fails.
    pub open spec fn after_create(self, source_is_dir: bool, name: Seq<char>) -> LinkFarmView {
        if self.create_result(source_is_dir, name) is Ok {
            LinkFarmView {
                entries: self.entries.push(DirEntryView { name, is_link: true }),
                ..self
            }
        } else {
            self
        }
    }

    /// The directory after `remove_link`.
    pub open spec fn after_remove(self, name: Seq<char>) -> LinkFarmView {
        LinkFarmView { entries: without(self.entries, name), ..self }
    }

    /// The directory after every link is removed.
    pub open spec fn cleared(self) -> LinkFarmView {
        LinkFarmView { entries: kept(self.entries), ..self }
    }
}

/// The entries of a profile's mod directory.
#[derive(Debug)]
pub struct LinkFarm {
    /// The path of the directory.
    pub dir: String,
    /// Whether the directory exists.
    pub present: bool,
    /// Its immediate children.
    pub entries: Vec<DirEntry>,
}

impl View for LinkFarm {
    type V = LinkFarmView;

    open spec fn view(&self) -> LinkFarmView {
        LinkFarmView { dir: self.dir@, present: self.present, entries: self.entries.deep_view() }
    }
}

impl DeepView for LinkFarm {
    type V = LinkFarmView;

    open spec fn deep_view(&self) -> LinkFarmView {
        self@
    }
}

/// An entry named `name` occurs in `entries` as often as `count_named` says.
pub proof fn lemma_count_named(entries: Seq<DirEntryView>, name: Seq<char>)
    ensures
        count_named(entries, name) > 0 <==> has_entry(entries, name),
    decreases entries.len(),
{
    if entries.len() > 0 {
        let front = entries.drop_last();
        lemma_count_named(front, name);
        if has_entry(front, name) {
            let i = choose|i: int| 0 <= i < front.len() && #[trigger] front[i].name == name;
            assert(entries[i].name == name);
        }
        if has_entry(entries, name) && entries.last().name != name {
            let i = choose|i: int| 0 <= i < entries.len() && #[trigger] entries[i].name == name;
            assert(front[i].name == name);
        }
        if entries.last().name == name {
            assert(entries[entries.len() - 1].name == name);
        }
    }
}

/// Removing a name leaves no entry of that name, and leaves every other
/// name as it was.
pub proof fn lemma_without(entries: Seq<DirEntryView>, name: Seq<char>)
    ensures
        !has_entry(without(entries, name), name),
        forall|other: Seq<char>|
            other != name ==> (has_entry(without(entries, name), other) <==> has_entry(
                entries,
                other,
            )),
        forall|other: Seq<char>|
            other != name ==> (has_link(without(entries, name), other) <==> has_link(
                entries,
                other,
            )),
        without(entries, name).len() <= entries.len(),
    decreases entries.len(),
{
    if entries.len() > 0 {
        let front = entries.drop_last();
        let last = entries.last();
        lemma_without(front, name);
        let w = without(entries, name);
        let wf = without(front, name);
        assert forall|other: Seq<char>| other != name implies (has_entry(w, other) <==> has_entry(
            entries,
            other,
        )) by {
            lemma_entry_split(entries, other);
            if last.name != name {
                lemma_entry_split(w, other);
                assert(w.drop_last() =~= wf);
            }
        }
        assert forall|other: Seq<char>| other != name implies (has_link(w, other) <==> has_link(
            entries,
            other,
        )) by {
            lemma_link_split(entries, other);
            if last.name != name {
                lemma_link_split(w, other);
                assert(w.drop_last() =~= wf);
            }
        }
        if last.name != name {
            assert(w.drop_last() =~= wf);
            lemma_entry_split(w, name);
        }
    }
}

/// An entry of a name is the last entry or one of those before it.
pub proof fn lemma_entry_split(entries: Seq<DirEntryView>, name: Seq<char>)
    requires
        entries.len() > 0,
    ensures
        has_entry(entries, name) <==> (entries.last().name == name || has_entry(
            entries.drop_last(),
            name,
        )),
{
    let front = entries.drop_last();
    if has_entry(entries, name) && entries.last().name != name {
        let i = choose|i: int| 0 <= i < entries.len() && #[trigger] entries[i].name == name;
        assert(front[i].name == name);
    }
    if has_entry(front, name) {
        let i = choose|i: int| 0 <= i < front.len() && #[trigger] front[i].name == name;
        assert(entries[i].name == name);
    }
    if entries.last().name == name {
        assert(entries[entries.len() - 1].name == name);
    }
}

/// A link of a name is the last entry or one of those before it.
pub proof fn lemma_link_split(entries: Seq<DirEntryView>, name: Seq<char>)
    requires
        entries.len() > 0,
    ensures
        has_link(entries, name) <==> ((entries.last().name == name && entries.last().is_link)
            || has_link(entries.drop_last(), name)),
{
    let front = entries.drop_last();
    if has_link(entries, name) && !(entries.last().name == name && entries.last().is_link) {
        let i = choose|i: int|
            0 <= i < entries.len() && #[trigger] entries[i].name == name && entries[i].is_link;
        assert(front[i].name == name);
    }
    if has_link(front, name) {
        let i = choose|i: int|
            0 <= i < front.len() && #[trigger] front[i].name == name && front[i].is_link;
        assert(entries[i].name == name);
    }
    if entries.last().name == name && entries.last().is_link {
        assert(entries[entries.len() - 1].name == name);
    }
}

/// Clearing leaves no link, and leaves every entry that is no link.
pub proof fn lemma_kept(entries: Seq<DirEntryView>)
    ensures
        forall|name: Seq<char>| !has_link(kept(entries), name),
        forall|i: int| 0 <= i < kept(entries).len() ==> !(#[trigger] kept(entries)[i]).is_link,
        forall|name: Seq<char>|
            has_entry(kept(entries), name) <==> exists|i: int|
                0 <= i < entries.len() && #[trigger] entries[i].name == name && !entries[i].is_link,
        kept(entries).len() <= entries.len(),
    decreases entries.len(),
{
    if entries.len() > 0 {
        let front = entries.drop_last();
        let last = entries.last();
        lemma_kept(front);
        let k = kept(entries);
        let kf = kept(front);
        if !last.is_link {
            assert(k.drop_last() =~= kf);
        }
        assert forall|i: int| 0 <= i < k.len() implies !(#[trigger] k[i]).is_link by {
            if !last.is_link && i < k.len() - 1 {
                assert(k[i] == kf[i]);
            }
        }
        assert forall|name: Seq<char>| !has_link(k, name) by {
            if has_link(k, name) {
                let i = choose|i: int| 0 <= i < k.len() && #[trigger] k[i].name == name && k[i].is_link;
                assert(!k[i].is_link);
            }
        }
        assert forall|name: Seq<char>|
            has_entry(k, name) <==> exists|i: int|
                0 <= i < entries.len() && #[trigger] entries[i].name == name
                    && !entries[i].is_link by {
            let in_front = exists|i: int|
                0 <= i < front.len() && #[trigger] front[i].name == name && !front[i].is_link;
            let in_all = exists|i: int|
                0 <= i < entries.len() && #[trigger] entries[i].name == name && !entries[i].is_link;
            assert(has_entry(kf, name) <==> in_front);
            if in_front {
                let i = choose|i: int|
                    0 <= i < front.len() && #[trigger] front[i].name == name && !front[i].is_link;
                assert(entries[i].name == name && !entries[i].is_link);
            }
            if in_all {
                let i = choose|i: int|
                    0 <= i < entries.len() && #[trigger] entries[i].name == name
                        && !entries[i].is_link;
                if i < entries.len() - 1 {
                    assert(front[i].name == name && !front[i].is_link);
                }
            }
            if !last.is_link {
                lemma_entry_split(k, name);
                if last.name == name {
                    assert(entries[entries.len() - 1].name == name);
                }
            }
        }
    }
}

/// Removing entries keeps the names of the others apart.
pub proof fn lemma_without_distinct(entries: Seq<DirEntryView>, name: Seq<char>)
    requires
        distinct_names(entries),
        forall|i: int| 0 <= i < entries.len() ==> is_component(#[trigger] entries[i].name),
    ensures
        distinct_names(without(entries, name)),
        forall|i: int|
            0 <= i < without(entries, name).len() ==> is_component(
                #[trigger] without(entries, name)[i].name,
            ),
    decreases entries.len(),
{
    if entries.len() > 0 {
        let front = entries.drop_last();
        let last = entries.last();
        assert forall|i: int| 0 <= i < front.len() implies is_component(#[trigger] front[i].name) by {
            assert(front[i] == entries[i]);
        }
        assert(distinct_names(front)) by {
            assert forall|i: int, j: int|
                0 <= i < front.len() && 0 <= j < front.len() && i != j implies front[i].name
                != front[j].name by {
                assert(front[i] == entries[i] && front[j] == entries[j]);
            }
        }
        lemma_without_distinct(front, name);
        lemma_without(front, name);
        let w = without(entries, name);
        let wf = without(front, name);
        if last.name != name {
            assert(w.drop_last() =~= wf);
            assert(!has_entry(front, last.name)) by {
                if has_entry(front, last.name) {
                    let i = choose|i: int| 0 <= i < front.len() && #[trigger] front[i].name == last.name;
                    assert(entries[i].name == entries[entries.len() - 1].name);
                }
            }
            assert(!has_entry(wf, last.name));
            assert forall|i: int, j: int|
                0 <= i < w.len() && 0 <= j < w.len() && i != j implies w[i].name != w[j].name by {
                if i < wf.len() {
                    assert(w[i] == wf[i]);
                }
                if j < wf.len() {
                    assert(w[j] == wf[j]);
                }
            }
            assert forall|i: int| 0 <= i < w.len() implies is_component(#[trigger] w[i].name) by {
                if i < wf.len() {
                    assert(w[i] == wf[i]);
                } else {
                    assert(w[i] == entries[entries.len() - 1]);
                }
            }
        }
    }
}

/// Clearing keeps the names of the remaining entries apart.
pub proof fn lemma_kept_distinct(entries: Seq<DirEntryView>)
    requires
        distinct_names(entries),
        forall|i: int| 0 <= i < entries.len() ==> is_component(#[trigger] entries[i].name),
    ensures
        distinct_names(kept(entries)),
        forall|i: int| 0 <= i < kept(entries).len() ==> is_component(#[trigger] kept(entries)[i].name),
    decreases entries.len(),
{
    if entries.len() > 0 {
        let front = entries.drop_last();
        let last = entries.last();
        assert forall|i: int| 0 <= i < front.len() implies is_component(#[trigger] front[i].name) by {
            assert(front[i] == entries[i]);
        }
        assert(distinct_names(front)) by {
            assert forall|i: int, j: int|
                0 <= i < front.len() && 0 <= j < front.len() && i != j implies front[i].name
                != front[j].name by {
                assert(front[i] == entries[i] && front[j] == entries[j]);
            }
        }
        lemma_kept_distinct(front);
        lemma_kept(front);
        let k = kept(entries);
        let kf = kept(front);
        if !last.is_link {
            assert(k.drop_last() =~= kf);
            assert(!has_entry(kf, last.name)) by {
                if has_entry(kf, last.name) {
                    let i = choose|i: int|
                        0 <= i < front.len() && #[trigger] front[i].name == last.name
                            && !front[i].is_link;
                    assert(entries[i].name == entries[entries.len() - 1].name);
                }
            }
            assert forall|i: int, j: int|
                0 <= i < k.len() && 0 <= j < k.len() && i != j implies k[i].name != k[j].name by {
                if i < kf.len() {
                    assert(k[i] == kf[i]);
                }
                if j < kf.len() {
                    assert(k[j] == kf[j]);
                }
            }
            assert forall|i: int| 0 <= i < k.len() implies is_component(#[trigger] k[i].name) by {
                if i < kf.len() {
                    assert(k[i] == kf[i]);
                } else {
                    assert(k[i] == entries[entries.len() - 1]);
                }
            }
        }
    }
}

impl LinkFarm {
    /// A directory that does not exist.
    pub fn absent(dir: String) -> (r: LinkFarm)
        ensures
            r@ == (LinkFarmView { dir: dir@, present: false, entries: Seq::empty() }),
            r@.wf(),
    {
        let r = LinkFarm { dir, present: false, entries: Vec::new() };
        proof {
            assert(r.entries.deep_view() =~= Seq::<DirEntryView>::empty());
        }
        r
    }

    /// An existing directory without entries.
    pub fn empty(dir: String) -> (r: LinkFarm)
        ensures
            r@ == (LinkFarmView { dir: dir@, present: true, entries: Seq::empty() }),
            r@.wf(),
    {
        let r = LinkFarm { dir, present: true, entries: Vec::new() };
        proof {
            assert(r.entries.deep_view() =~= Seq::<DirEntryView>::empty());
        }
        r
    }

    /// Whether some entry has the name `name`.
    pub fn has_entry(&self, name: &str) -> (r: bool)
        ensures
            r == has_entry(self@.entries, name@),
    {
        let mut i: usize = 0;
        while i < self.entries.len()
            invariant
                i <= self.entries.len(),
                forall|j: int| 0 <= j < i ==> self@.entries[j].name != name@,
            decreases self.entries.len() - i,
        {
            if str_eq(self.entries[i].name.as_str(), name) {
                proof {
                    assert(self@.entries[i as int].name == name@);
                }
                return true;
            }
            i += 1;
        }
        false
    }

    /// Whether the entry `name` is a link. An entry that is missing is none.
    pub fn is_link(&self, name: &str) -> (r: bool)
        ensures
            r == has_link(self@.entries, name@),
    {
        let mut i: usize = 0;
        while i < self.entries.len()
            invariant
                i <= self.entries.len(),
                forall|j: int|
                    0 <= j < i ==> !(self@.entries[j].name == name@ && self@.entries[j].is_link),
            decreases self.entries.len() - i,
        {
            if self.entries[i].is_link && str_eq(self.entries[i].name.as_str(), name) {
                proof {
                    assert(self@.entries[i as int].name == name@ && self@.entries[i as int].is_link);
                }
                return true;
            }
            i += 1;
        }
        false
    }

    /// The paths of the links in the directory, in the order of its entries.
    /// Fails with `DirNotFound` where the directory is missing.
    pub fn list_links(&self) -> (r: Result<Vec<String>, LinkError>)
        ensures
            match r {
                Ok(paths) => self.present && paths.deep_view() == link_paths(
                    self@.dir,
                    self@.entries,
                ),
                Err(e) => !self.present && e == LinkError::DirNotFound,
            },
    {
        if !self.present {
            return Err(LinkError::DirNotFound);
        }
        let mut paths: Vec<String> = Vec::new();
        let mut i: usize = 0;
        proof {
            assert(paths.deep_view() =~= Seq::<Seq<char>>::empty());
            assert(self@.entries.take(0) =~= Seq::<DirEntryView>::empty());
        }
        while i < self.entries.len()
            invariant
                i <= self.entries.len(),
                paths.deep_view() == link_paths(self@.dir, self@.entries.take(i as int)),
            decreases self.entries.len() - i,
        {
            let ghost before = paths.deep_view();
            proof {
                let t = self@.entries.take(i as int + 1);
                assert(t.drop_last() =~= self@.entries.take(i as int));
                assert(t.last() == self@.entries[i as int]);
            }
            if self.entries[i].is_link {
                let path = join(self.dir.as_str(), self.entries[i].name.as_str());
                paths.push(path);
                proof {
                    assert(paths.deep_view() =~= before.push(path@));
                }
            }
            i += 1;
        }
        proof {
            assert(self@.entries.take(i as int) =~= self@.entries);
        }
        Ok(paths)
    }

    /// Creates the link `name`. Fails with `SourceInvalid` where the source
    /// is no directory or `name` cannot name an entry, with `TargetExists`
    /// where the directory holds an entry of that name, whatever its kind,
    /// and with `DirNotFound` where the directory is missing. Returns the
    /// path of the new link. A failure changes nothing.
    pub fn create_link(&mut self, source_is_dir: bool, name: &str) -> (r: Result<String, LinkError>)
        ensures
            match r {
                Ok(path) => old(self)@.create_result(source_is_dir, name@) == Ok::<
                    Seq<char>,
                    LinkError,
                >(path@),
                Err(e) => old(self)@.create_result(source_is_dir, name@) == Err::<
                    Seq<char>,
                    LinkError,
                >(e),
            },
            final(self)@ == old(self)@.after_create(source_is_dir, name@),
            old(self)@.wf() ==> final(self)@.wf(),
    {
        if !source_is_dir || !is_component_name(name) {
            return Err(LinkError::SourceInvalid);
        }
        if self.has_entry(name) {
            return Err(LinkError::TargetExists);
        }
        if !self.present {
            return Err(LinkError::DirNotFound);
        }
        let path = join(self.dir.as_str(), name);
        let ghost before = self.entries.deep_view();
        self.entries.push(DirEntry { name: name.to_owned(), is_link: true });
        proof {
            let added = DirEntryView { name: name@, is_link: true };
            assert(self.entries.deep_view() =~= before.push(added));
            if old(self)@.wf() {
                let now = self.entries.deep_view();
                assert forall|i: int, j: int|
                    0 <= i < now.len() && 0 <= j < now.len() && i != j implies now[i].name
                    != now[j].name by {
                    if i < before.len() {
                        assert(before[i].name == now[i].name);
                    }
                    if j < before.len() {
                        assert(before[j].name == now[j].name);
                    }
                }
                assert forall|i: int| 0 <= i < now.len() implies is_component(
                    #[trigger] now[i].name,
                ) by {
                    if i < before.len() {
                        assert(before[i].name == now[i].name);
                    }
                }
            }
        }
        Ok(path)
    }

    /// Removes the entry `name`. Fails with `NotFound` where there is none,
    /// and then changes nothing.
    pub fn remove_link(&mut self, name: &str) -> (r: Result<(), LinkError>)
        ensures
            r is Ok <==> has_entry(old(self)@.entries, name@),
            r is Err ==> r == Err::<(), LinkError>(LinkError::NotFound),
            final(self)@ == old(self)@.after_remove(name@),
            old(self)@.wf() ==> final(self)@.wf(),
    {
        let found = self.has_entry(name);
        let mut rest: Vec<DirEntry> = Vec::new();
        let n = self.entries.len();
        let ghost all = self.entries.deep_view();
        proof {
            assert(rest.deep_view() =~= Seq::<DirEntryView>::empty());
            assert(all.take(0) =~= Seq::<DirEntryView>::empty());
        }
        let mut i: usize = 0;
        while i < n
            invariant
                i <= n,
                n == self.entries.len(),
                all == self.entries.deep_view(),
                self.dir == old(self).dir,
                self.present == old(self).present,
                rest.deep_view() == without(all.take(i as int), name@),
            decreases n - i,
        {
            let ghost before = rest.deep_view();
            proof {
                let t = all.take(i as int + 1);
                assert(t.drop_last() =~= all.take(i as int));
                assert(t.last() == all[i as int]);
            }
            if !str_eq(self.entries[i].name.as_str(), name) {
                let entry = DirEntry {
                    name: self.entries[i].name.clone(),
                    is_link: self.entries[i].is_link,
                };
                rest.push(entry);
                proof {
                    assert(rest.deep_view() =~= before.push(all[i as int]));
                }
            }
            i += 1;
        }
        proof {
            assert(all.take(n as int) =~= all);
            if old(self)@.wf() {
                lemma_without_distinct(all, name@);
                lemma_without(all, name@);
            }
        }
        self.entries = rest;
        if found {
            Ok(())
        } else {
            Err(LinkError::NotFound)
        }
    }

    /// Removes every link from the directory and returns their paths, in
    /// the order of the entries. Entries that are no links stay.
    pub fn clear_links(&mut self) -> (removed: Vec<String>)
        ensures
            removed.deep_view() == link_paths(old(self)@.dir, old(self)@.entries),
            final(self)@ == old(self)@.cleared(),
            old(self)@.wf() ==> final(self)@.wf(),
    {
        let mut removed: Vec<String> = Vec::new();
        let mut rest: Vec<DirEntry> = Vec::new();
        let n = self.entries.len();
        let ghost all = self.entries.deep_view();
        proof {
            assert(rest.deep_view() =~= Seq::<DirEntryView>::empty());
            assert(removed.deep_view() =~= Seq::<Seq<char>>::empty());
            assert(all.take(0) =~= Seq::<DirEntryView>::empty());
        }
        let mut i: usize = 0;
        while i < n
            invariant
                i <= n,
                n == self.entries.len(),
                all == self.entries.deep_view(),
                self.dir == old(self).dir,
                self.present == old(self).present,
                rest.deep_view() == kept(all.take(i as int)),
                removed.deep_view() == link_paths(self.dir@, all.take(i as int)),
            decreases n - i,
        {
            let ghost rest_before = rest.deep_view();
            let ghost removed_before = removed.deep_view();
            proof {
                let t = all.take(i as int + 1);
                assert(t.drop_last() =~= all.take(i as int));
                assert(t.last() == all[i as int]);
            }
            if self.entries[i].is_link {
                let path = join(self.dir.as_str(), self.entries[i].name.as_str());
                removed.push(path);
                proof {
                    assert(removed.deep_view() =~= removed_before.push(path@));
                }
            } else {
                let entry = DirEntry { name: self.entries[i].name.clone(), is_link: false };
                rest.push(entry);
                proof {
                    assert(rest.deep_view() =~= rest_before.push(all[i as int]));
                }
            }
            i += 1;
        }
        proof {
            assert(all.take(n as int) =~= all);
            if old(self)@.wf() {
                lemma_kept_distinct(all);
                lemma_kept(all);
            }
        }
        self.entries = rest;
        removed
    }
}

} // verus!
