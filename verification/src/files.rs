//! Directories as they were read, and what is to be done on disk to clear
//! or copy one. Nothing here touches the disk: the caller reads a
//! directory into a `DirNode` and carries out the actions returned.

use vstd::prelude::*;
use crate::paths::{file_name, file_name_of, join, join_of};
use crate::text::{chars_of, concat, contains, contains_sub, split, split_on, str_eq};

verus! {

/// What a `DirNode` stands for.
pub struct NodeView {
    pub name: Seq<char>,
    pub is_dir: bool,
    pub children: Seq<NodeView>,
}

/// One entry of a directory: its name, whether it is a directory, and, if
/// so, its own entries in the order in which they were listed.
#[derive(Debug)]
pub struct DirNode {
    pub name: String,
    pub is_dir: bool,
    pub children: Vec<DirNode>,
}

/// What `node` stands for.
pub open spec fn node_view(node: DirNode) -> NodeView
    decreases node,
{
    NodeView {
        name: node.name@,
        is_dir: node.is_dir,
        children: Seq::new(
            node.children@.len(),
            |i: int|
                if 0 <= i < node.children@.len() {
                    node_view(node.children@[i])
                } else {
                    NodeView { name: Seq::empty(), is_dir: false, children: Seq::empty() }
                },
        ),
    }
}

impl View for DirNode {
    type V = NodeView;

    open spec fn view(&self) -> NodeView {
        node_view(*self)
    }
}

impl DeepView for DirNode {
    type V = NodeView;

    open spec fn deep_view(&self) -> NodeView {
        node_view(*self)
    }
}

/// The entries of a directory node are the views of its children.
pub proof fn lemma_children_view(node: DirNode)
    ensures
        node@.children == node.children.deep_view(),
{
    assert(node@.children =~= node.children.deep_view());
}

/// Whether one of `names` is the name of the manifest file.
pub open spec fn names_manifest(names: Seq<Seq<char>>) -> bool {
    exists|i: int| 0 <= i < names.len() && #[trigger] names[i] == "modinfo.json"@
}

/// Whether one of `names` is the name of the manifest file.
pub fn is_mod_dir(names: &Vec<String>) -> (r: bool)
    ensures
        r == names_manifest(names.deep_view()),
{
    let mut i: usize = 0;
    while i < names.len()
        invariant
            i <= names.len(),
            forall|j: int| 0 <= j < i ==> names.deep_view()[j] != "modinfo.json"@,
        decreases names.len() - i,
    {
        if str_eq(names[i].as_str(), "modinfo.json") {
            proof {
                assert(names.deep_view()[i as int] == "modinfo.json"@);
            }
            return true;
        }
        i += 1;
    }
    false
}

/// The message for a directory without a manifest.
pub open spec fn not_a_mod_dir(dir: Seq<char>) -> Seq<char> {
    "not a mod directory: \""@ + dir + "\""@
}

/// The path of the manifest of the mod directory `dir`, whose entries have
/// the names `names`. Fails where none of them is the manifest.
pub fn get_modinfo_path(dir: &str, names: &Vec<String>) -> (r: Result<String, String>)
    ensures
        match r {
            Ok(path) => names_manifest(names.deep_view()) && path@ == join_of(
                dir@,
                "modinfo.json"@,
            ),
            Err(message) => !names_manifest(names.deep_view()) && message@ == not_a_mod_dir(dir@),
        },
{
    if is_mod_dir(names) {
        Ok(join(dir, "modinfo.json"))
    } else {
        let head = concat("not a mod directory: \"", dir);
        Err(concat(head.as_str(), "\""))
    }
}

/// The code point of `c`, with the letters `A` to `Z` taken as `a` to `z`.
pub open spec fn lower_code(c: char) -> u32 {
    if 65 <= c as u32 <= 90 {
        (c as u32 + 32) as u32
    } else {
        c as u32
    }
}

/// Whether `a` and `b` are the same but for the case of ASCII letters.
pub open spec fn same_ignoring_case(a: Seq<char>, b: Seq<char>) -> bool {
    a.len() == b.len() && forall|i: int| 0 <= i < a.len() ==> lower_code(a[i]) == lower_code(b[i])
}

fn lower(c: char) -> (r: u32)
    ensures
        r == lower_code(c),
{
    let u = c as u32;
    if 65 <= u && u <= 90 {
        u + 32
    } else {
        u
    }
}

/// Whether `a` and `b` are the same but for the case of ASCII letters.
pub fn eq_ignore_ascii_case(a: &str, b: &str) -> (r: bool)
    ensures
        r == same_ignoring_case(a@, b@),
{
    let x = chars_of(a);
    let y = chars_of(b);
    if x.len() != y.len() {
        return false;
    }
    let mut i: usize = 0;
    while i < x.len()
        invariant
            x@ == a@,
            y@ == b@,
            x.len() == y.len(),
            i <= x.len(),
            forall|j: int| 0 <= j < i ==> lower_code(x@[j]) == lower_code(y@[j]),
        decreases x.len() - i,
    {
        if lower(x[i]) != lower(y[i]) {
            return false;
        }
        i += 1;
    }
    true
}

/// Whether one of `children` has the name of the manifest file.
pub open spec fn has_manifest(children: Seq<NodeView>) -> bool {
    exists|i: int| 0 <= i < children.len() && (#[trigger] children[i]).name == "modinfo.json"@
}

/// The first mod directory under `path`, whose entries are `children`, in
/// the order of a walk that goes into each directory before it goes on: a
/// directory with a manifest, or the directory that holds a file with the
/// manifest's name in any case.
pub open spec fn first_mod_dir(path: Seq<char>, children: Seq<NodeView>) -> Option<Seq<char>>
    decreases children,
{
    if children.len() == 0 {
        None
    } else {
        let c = children[0];
        let here = join_of(path, c.name);
        let found = if c.is_dir {
            if has_manifest(c.children) {
                Some(here)
            } else {
                first_mod_dir(here, c.children)
            }
        } else if same_ignoring_case(c.name, "modinfo.json"@) {
            Some(path)
        } else {
            None
        };
        match found {
            Some(p) => Some(p),
            None => first_mod_dir(path, children.drop_first()),
        }
    }
}

/// Whether one of `children` has the name of the manifest file.
pub fn holds_manifest(children: &Vec<DirNode>) -> (r: bool)
    ensures
        r == has_manifest(children.deep_view()),
{
    let mut i: usize = 0;
    while i < children.len()
        invariant
            i <= children.len(),
            forall|j: int| 0 <= j < i ==> children.deep_view()[j].name != "modinfo.json"@,
        decreases children.len() - i,
    {
        if str_eq(children[i].name.as_str(), "modinfo.json") {
            proof {
                assert(children.deep_view()[i as int].name == "modinfo.json"@);
            }
            return true;
        }
        i += 1;
    }
    false
}

/// The first mod directory under `path`, whose entries are `children`.
pub fn get_shallowest_mod_dir(path: &str, children: &Vec<DirNode>) -> (r: Option<String>)
    ensures
        r.deep_view() == first_mod_dir(path@, children.deep_view()),
    decreases children,
{
    let ghost all = children.deep_view();
    let mut i: usize = 0;
    proof {
        assert(all.skip(0) =~= all);
    }
    while i < children.len()
        invariant
            i <= children.len(),
            all == children.deep_view(),
            first_mod_dir(path@, all) == first_mod_dir(path@, all.skip(i as int)),
        decreases children.len() - i,
    {
        let c = &children[i];
        proof {
            let rest = all.skip(i as int);
            assert(rest[0] == c@);
            assert(rest.drop_first() =~= all.skip(i as int + 1));
            lemma_children_view(*c);
        }
        if c.is_dir {
            let here = join(path, c.name.as_str());
            if holds_manifest(&c.children) {
                return Some(here);
            }
            match get_shallowest_mod_dir(here.as_str(), &c.children) {
                Some(p) => {
                    return Some(p);
                },
                None => {},
            }
        } else if eq_ignore_ascii_case(c.name.as_str(), "modinfo.json") {
            return Some(path.to_owned());
        }
        i += 1;
    }
    None
}

/// The pieces with `sep` between them.
pub open spec fn joined(parts: Seq<Seq<char>>, sep: char) -> Seq<char>
    decreases parts.len(),
{
    if parts.len() == 0 {
        Seq::empty()
    } else if parts.len() == 1 {
        parts[0]
    } else {
        joined(parts.drop_last(), sep) + seq![sep] + parts.last()
    }
}

/// The stem of the file at `path`: the name of the file without what
/// follows its last `.`; the whole name where it has no `.`, and nothing
/// where the path has no final component.
pub open spec fn stem_of(path: Seq<char>) -> Seq<char> {
    let name = match file_name_of(path) {
        Some(n) => n,
        None => Seq::empty(),
    };
    let parts = split_on(name, '.');
    if parts.len() > 1 {
        joined(parts.drop_last(), '.')
    } else {
        joined(parts, '.')
    }
}

/// The stem of the file at `file_path`.
pub fn to_stem(file_path: &str) -> (r: String)
    ensures
        r@ == stem_of(file_path@),
{
    let name = match file_name(file_path) {
        Some(n) => n,
        None => String::new(),
    };
    let parts = split(name.as_str(), '.');
    let count = if parts.len() > 1 {
        parts.len() - 1
    } else {
        parts.len()
    };
    let ghost wanted = parts.deep_view().take(count as int);
    proof {
        if parts.len() > 1 {
            assert(wanted =~= parts.deep_view().drop_last());
        } else {
            assert(wanted =~= parts.deep_view());
        }
    }
    let mut r = String::new();
    let mut i: usize = 0;
    proof {
        assert(wanted.take(0) =~= Seq::<Seq<char>>::empty());
    }
    while i < count
        invariant
            i <= count,
            count <= parts.len(),
            wanted == parts.deep_view().take(count as int),
            r@ == joined(wanted.take(i as int), '.'),
        decreases count - i,
    {
        proof {
            let t = wanted.take(i as int + 1);
            assert(t.drop_last() =~= wanted.take(i as int));
            assert(t.last() == parts.deep_view()[i as int]);
            reveal_strlit(".");
            assert("."@ =~= seq!['.']);
        }
        if i > 0 {
            r.append(".");
        }
        r.append(parts[i].as_str());
        proof {
            let t = wanted.take(i as int + 1);
            if i == 0 {
                assert(r@ =~= t[0]);
            }
        }
        i += 1;
    }
    proof {
        assert(wanted.take(count as int) =~= wanted);
    }
    r
}

/// The directory of the store that the mod archive at `src` is unpacked
/// into: the one named by the stem of the archive.
pub fn archive_target(mod_data_dir: &str, src: &str) -> (r: String)
    ensures
        r@ == join_of(mod_data_dir@, stem_of(src@)),
{
    let stem = to_stem(src);
    join(mod_data_dir, stem.as_str())
}

/// Why a mod archive is not unpacked, if it is not: its source is missing,
/// or its destination exists and may not be written over.
pub open spec fn archive_refusal(
    src: Seq<char>,
    dest: Seq<char>,
    src_exists: bool,
    dest_exists: bool,
    exists_ok: Option<bool>,
) -> Option<Seq<char>> {
    if !src_exists {
        Some("Source file does not exist: "@ + src)
    } else if dest_exists && exists_ok != Some(true) {
        Some("Destination directory already exists: "@ + dest)
    } else {
        None
    }
}

/// Checks that the mod archive at `src` may be unpacked into `dest`.
pub fn prepare_paths(src: &str, dest: &str, src_exists: bool, dest_exists: bool, exists_ok: Option<
    bool,
>) -> (r: Result<(), String>)
    ensures
        match r {
            Ok(_) => archive_refusal(src@, dest@, src_exists, dest_exists, exists_ok) is None,
            Err(message) => archive_refusal(src@, dest@, src_exists, dest_exists, exists_ok)
                == Some(message@),
        },
{
    if !src_exists {
        return Err(concat("Source file does not exist: ", src));
    }
    let may_overwrite = match exists_ok {
        Some(ok) => ok,
        None => false,
    };
    if dest_exists && !may_overwrite {
        return Err(concat("Destination directory already exists: ", dest));
    }
    Ok(())
}

/// What a `FileAction` stands for.
pub enum FileActionView {
    CreateDir(Seq<char>),
    CopyFile(Seq<char>, Seq<char>),
    RemoveTree(Seq<char>),
    RemoveFile(Seq<char>),
}

/// One step to carry out on disk.
#[derive(Debug, PartialEq, Eq)]
pub enum FileAction {
    /// Create this directory and the directories above it.
    CreateDir(String),
    /// Copy the file at the first path to the second.
    CopyFile(String, String),
    /// Remove this directory with all that it holds.
    RemoveTree(String),
    /// Remove this file.
    RemoveFile(String),
}

impl View for FileAction {
    type V = FileActionView;

    open spec fn view(&self) -> FileActionView {
        match self {
            FileAction::CreateDir(p) => FileActionView::CreateDir(p@),
            FileAction::CopyFile(a, b) => FileActionView::CopyFile(a@, b@),
            FileAction::RemoveTree(p) => FileActionView::RemoveTree(p@),
            FileAction::RemoveFile(p) => FileActionView::RemoveFile(p@),
        }
    }
}

impl DeepView for FileAction {
    type V = FileActionView;

    open spec fn deep_view(&self) -> FileActionView {
        self@
    }
}

/// Whether the entry at `path` is left out: where there is a pattern and it
/// occurs in the path.
pub open spec fn is_excluded(path: Seq<char>, pattern: Option<Seq<char>>) -> bool {
    match pattern {
        Some(p) => contains_sub(path, p),
        None => false,
    }
}

/// Whether the entry at `path` is left out.
pub fn excluded(path: &str, pattern: Option<&str>) -> (r: bool)
    ensures
        r == is_excluded(path@, pattern.deep_view()),
{
    match pattern {
        Some(p) => contains(path, p),
        None => false,
    }
}

/// The steps that clear the entries `children` of the directory `path`:
/// each entry whose path does not hold the pattern is removed, a directory
/// with all that it holds.
pub open spec fn clearing(path: Seq<char>, children: Seq<NodeView>, pattern: Seq<char>) -> Seq<
    FileActionView,
>
    decreases children.len(),
{
    if children.len() == 0 {
        Seq::empty()
    } else {
        let c = children.last();
        let rest = clearing(path, children.drop_last(), pattern);
        let here = join_of(path, c.name);
        if contains_sub(here, pattern) {
            rest
        } else if c.is_dir {
            rest.push(FileActionView::RemoveTree(here))
        } else {
            rest.push(FileActionView::RemoveFile(here))
        }
    }
}

/// The steps that remove the directory `path`: the whole directory where
/// there is no pattern, else every entry whose path does not hold the
/// pattern, the directory itself staying.
pub open spec fn removal(path: Seq<char>, children: Seq<NodeView>, pattern: Option<Seq<char>>) -> Seq<
    FileActionView,
> {
    match pattern {
        None => seq![FileActionView::RemoveTree(path)],
        Some(p) => clearing(path, children, p),
    }
}

/// The steps that remove the directory `path`, whose entries are
/// `children`.
pub fn remove_dir_all(path: &str, children: &Vec<DirNode>, exclude_pattern: Option<&str>) -> (r:
    Vec<FileAction>)
    ensures
        r.deep_view() == removal(path@, children.deep_view(), exclude_pattern.deep_view()),
{
    let mut plan: Vec<FileAction> = Vec::new();
    let pattern = match exclude_pattern {
        None => {
            plan.push(FileAction::RemoveTree(path.to_owned()));
            proof {
                assert(plan.deep_view() =~= seq![FileActionView::RemoveTree(path@)]);
            }
            return plan;
        },
        Some(p) => p,
    };
    let ghost all = children.deep_view();
    proof {
        assert(plan.deep_view() =~= Seq::<FileActionView>::empty());
        assert(all.take(0) =~= Seq::<NodeView>::empty());
    }
    let mut i: usize = 0;
    while i < children.len()
        invariant
            i <= children.len(),
            all == children.deep_view(),
            plan.deep_view() == clearing(path@, all.take(i as int), pattern@),
        decreases children.len() - i,
    {
        let ghost before = plan.deep_view();
        proof {
            let t = all.take(i as int + 1);
            assert(t.drop_last() =~= all.take(i as int));
            assert(t.last() == children@[i as int]@);
        }
        let here = join(path, children[i].name.as_str());
        if !contains(here.as_str(), pattern) {
            let step = if children[i].is_dir {
                FileAction::RemoveTree(here)
            } else {
                FileAction::RemoveFile(here)
            };
            plan.push(step);
            proof {
                assert(plan.deep_view() =~= before.push(step@));
            }
        }
        i += 1;
    }
    proof {
        assert(all.take(i as int) =~= all);
    }
    plan
}

/// The steps that copy the entries `children` of `src` into `dst`, in
/// order: an entry whose path holds the pattern is left out, a directory is
/// created and its entries copied, a file is copied.
pub open spec fn copying(
    src: Seq<char>,
    dst: Seq<char>,
    children: Seq<NodeView>,
    pattern: Option<Seq<char>>,
) -> Seq<FileActionView>
    decreases children,
{
    if children.len() == 0 {
        Seq::empty()
    } else {
        let c = children[0];
        let from = join_of(src, c.name);
        let to = join_of(dst, c.name);
        let first = if is_excluded(from, pattern) {
            Seq::empty()
        } else if c.is_dir {
            seq![FileActionView::CreateDir(to)] + copying(from, to, c.children, pattern)
        } else {
            seq![FileActionView::CopyFile(from, to)]
        };
        first + copying(src, dst, children.drop_first(), pattern)
    }
}

fn copy_entries(src: &str, dst: &str, children: &Vec<DirNode>, pattern: Option<&str>, plan: &mut Vec<
    FileAction,
>)
    ensures
        final(plan).deep_view() == old(plan).deep_view() + copying(
            src@,
            dst@,
            children.deep_view(),
            pattern.deep_view(),
        ),
    decreases children,
{
    let ghost all = children.deep_view();
    let ghost start = plan.deep_view();
    let mut i: usize = 0;
    proof {
        assert(all.skip(0) =~= all);
        assert(start + Seq::<FileActionView>::empty() =~= start);
    }
    let ghost mut done: Seq<FileActionView> = Seq::empty();
    while i < children.len()
        invariant
            i <= children.len(),
            all == children.deep_view(),
            plan.deep_view() == start + done,
            done + copying(src@, dst@, all.skip(i as int), pattern.deep_view()) == copying(
                src@,
                dst@,
                all,
                pattern.deep_view(),
            ),
        decreases children.len() - i,
    {
        let c = &children[i];
        let ghost before = plan.deep_view();
        let ghost rest = all.skip(i as int);
        proof {
            assert(rest[0] == c@);
            assert(rest.drop_first() =~= all.skip(i as int + 1));
            lemma_children_view(*c);
        }
        let from = join(src, c.name.as_str());
        let to = join(dst, c.name.as_str());
        let ghost first: Seq<FileActionView>;
        if excluded(from.as_str(), pattern) {
            proof {
                first = Seq::empty();
                assert(before + first =~= before);
            }
        } else if c.is_dir {
            let step = FileAction::CreateDir(to.clone());
            plan.push(step);
            proof {
                assert(plan.deep_view() =~= before.push(step@));
            }
            copy_entries(from.as_str(), to.as_str(), &c.children, pattern, plan);
            proof {
                first = seq![FileActionView::CreateDir(to@)] + copying(
                    from@,
                    to@,
                    c@.children,
                    pattern.deep_view(),
                );
                assert(plan.deep_view() =~= before + first);
            }
        } else {
            let step = FileAction::CopyFile(from, to);
            plan.push(step);
            proof {
                first = seq![step@];
                assert(plan.deep_view() =~= before + first);
            }
        }
        proof {
            let tail = copying(src@, dst@, all.skip(i as int + 1), pattern.deep_view());
            assert(copying(src@, dst@, rest, pattern.deep_view()) == first + tail);
            assert((done + first) + tail =~= done + (first + tail));
            assert(start + (done + first) =~= (start + done) + first);
            done = done + first;
        }
        i += 1;
    }
    proof {
        assert(all.skip(i as int) =~= Seq::<NodeView>::empty());
        assert(done + Seq::<FileActionView>::empty() =~= done);
    }
}

/// The steps that copy the directory `src`, whose entries are `children`,
/// to `dst`: `dst` is created, then the entries are copied.
pub fn copy_dir_all(src: &str, dst: &str, children: &Vec<DirNode>, exclude_pattern: Option<&str>) -> (r:
    Vec<FileAction>)
    ensures
        r.deep_view() == seq![FileActionView::CreateDir(dst@)] + copying(
            src@,
            dst@,
            children.deep_view(),
            exclude_pattern.deep_view(),
        ),
{
    let mut plan: Vec<FileAction> = Vec::new();
    plan.push(FileAction::CreateDir(dst.to_owned()));
    proof {
        assert(plan.deep_view() =~= seq![FileActionView::CreateDir(dst@)]);
    }
    copy_entries(src, dst, children, exclude_pattern, &mut plan);
    plan
}

} // verus!
