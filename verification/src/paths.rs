//! Paths as strings with `/` between components, and the directory layout
//! of the application and of a profile.

use vstd::prelude::*;
use crate::text::{chars_of, concat, first_index, lemma_first_index, lemma_first_index_is, split, split_on, str_eq};

verus! {

/// `name` appended to `base` as one more component. An absolute `name`
/// replaces `base`; an empty `base` leaves `name` alone.
pub open spec fn join_of(base: Seq<char>, name: Seq<char>) -> Seq<char> {
    if name.len() > 0 && name[0] == '/' {
        name
    } else if base.len() == 0 {
        name
    } else if base.last() == '/' {
        base + name
    } else {
        base + seq!['/'] + name
    }
}

/// Appends `name` to `base` as one more component.
pub fn join(base: &str, name: &str) -> (r: String)
    ensures
        r@ == join_of(base@, name@),
{
    let n = name.unicode_len();
    let b = base.unicode_len();
    if n > 0 && name.get_char(0) == '/' {
        name.to_owned()
    } else if b == 0 {
        name.to_owned()
    } else if base.get_char(b - 1) == '/' {
        concat(base, name)
    } else {
        proof {
            reveal_strlit("/");
            assert("/"@ =~= seq!['/']);
        }
        let with_sep = concat(base, "/");
        concat(with_sep.as_str(), name)
    }
}

/// The last component among `segs` that names something: empty pieces and
/// `.` are passed over, and `..` names nothing.
pub open spec fn last_component(segs: Seq<Seq<char>>) -> Option<Seq<char>>
    decreases segs.len(),
{
    if segs.len() == 0 {
        None
    } else if segs.last().len() == 0 || segs.last() == "."@ {
        last_component(segs.drop_last())
    } else if segs.last() == ".."@ {
        None
    } else {
        Some(segs.last())
    }
}

/// The final component of `path`, if it has one. Trailing separators are
/// ignored. A path that ends in `..`, and the root, have none.
pub open spec fn file_name_of(path: Seq<char>) -> Option<Seq<char>> {
    last_component(split_on(path, '/'))
}

/// The final component of `path`, if it has one.
pub fn file_name(path: &str) -> (r: Option<String>)
    ensures
        r.deep_view() == file_name_of(path@),
{
    let parts = split(path, '/');
    let mut k: usize = parts.len();
    proof {
        assert(parts.deep_view().take(k as int) =~= parts.deep_view());
    }
    while k > 0
        invariant
            k <= parts.len(),
            last_component(parts.deep_view().take(k as int)) == file_name_of(path@),
        decreases k,
    {
        let seg = &parts[k - 1];
        proof {
            let t = parts.deep_view().take(k as int);
            assert(t.last() == seg@);
            assert(t.drop_last() =~= parts.deep_view().take(k - 1));
        }
        if seg.as_str().is_empty() || str_eq(seg.as_str(), ".") {
            k -= 1;
        } else if str_eq(seg.as_str(), "..") {
            return None;
        } else {
            return Some(seg.clone());
        }
    }
    None
}

/// Whether `name` can be the name of a directory entry: not empty, without
/// `/`, and neither `.` nor `..`.
pub open spec fn is_component(name: Seq<char>) -> bool {
    &&& name.len() > 0
    &&& forall|i: int| 0 <= i < name.len() ==> name[i] != '/'
    &&& name != "."@
    &&& name != ".."@
}

/// Whether `name` can be the name of a directory entry.
pub fn is_component_name(name: &str) -> (r: bool)
    ensures
        r == is_component(name@),
{
    if name.is_empty() || str_eq(name, ".") || str_eq(name, "..") {
        return false;
    }
    let cs = chars_of(name);
    let mut i: usize = 0;
    while i < cs.len()
        invariant
            i <= cs.len(),
            cs@ == name@,
            forall|j: int| 0 <= j < i ==> cs@[j] != '/',
        decreases cs.len() - i,
    {
        if cs[i] == '/' {
            return false;
        }
        i += 1;
    }
    true
}

/// A string without the separator is its own only piece.
pub proof fn lemma_split_on_whole(s: Seq<char>, sep: char)
    requires
        forall|i: int| 0 <= i < s.len() ==> s[i] != sep,
    ensures
        split_on(s, sep) == seq![s],
{
    lemma_first_index_is(s, sep, s.len() as int);
}

/// Splitting `a`, a separator and `b` gives the pieces of `a`, then those of `b`.
pub proof fn lemma_split_on_concat(a: Seq<char>, b: Seq<char>, sep: char)
    ensures
        split_on(a + seq![sep] + b, sep) == split_on(a, sep) + split_on(b, sep),
    decreases a.len(),
{
    let whole = a + seq![sep] + b;
    let k = first_index(a, sep);
    lemma_first_index(a, sep);
    assert forall|j: int| 0 <= j < k implies whole[j] != sep by {
        assert(whole[j] == a[j]);
    }
    if k < a.len() {
        assert(whole[k] == a[k]);
        lemma_first_index_is(whole, sep, k);
        assert(whole.take(k) =~= a.take(k));
        assert(whole.skip(k + 1) =~= a.skip(k + 1) + seq![sep] + b);
        lemma_split_on_concat(a.skip(k + 1), b, sep);
        assert(seq![a.take(k)] + (split_on(a.skip(k + 1), sep) + split_on(b, sep)) =~= (seq![
            a.take(k),
        ] + split_on(a.skip(k + 1), sep)) + split_on(b, sep));
    } else {
        assert(whole[k] == sep);
        lemma_first_index_is(whole, sep, k);
        assert(whole.take(k) =~= a);
        assert(whole.skip(k + 1) =~= b);
    }
}

/// No piece of a split holds the separator.
pub proof fn lemma_split_on_pieces(s: Seq<char>, sep: char)
    ensures
        forall|i: int, j: int|
            0 <= i < split_on(s, sep).len() && 0 <= j < split_on(s, sep)[i].len()
                ==> split_on(s, sep)[i][j] != sep,
    decreases s.len(),
{
    let k = first_index(s, sep);
    lemma_first_index(s, sep);
    if 0 <= k < s.len() {
        let rest = split_on(s.skip(k + 1), sep);
        lemma_split_on_pieces(s.skip(k + 1), sep);
        assert forall|i: int, j: int|
            0 <= i < split_on(s, sep).len() && 0 <= j < split_on(s, sep)[i].len() implies split_on(
            s,
            sep,
        )[i][j] != sep by {
            if i == 0 {
                assert(split_on(s, sep)[0] == s.take(k));
            } else {
                assert(split_on(s, sep)[i] == rest[i - 1]);
            }
        }
    }
}

/// What `last_component` returns is one of the pieces, and can name a
/// directory entry if the pieces hold no separator.
pub proof fn lemma_last_component(segs: Seq<Seq<char>>)
    requires
        forall|i: int, j: int| 0 <= i < segs.len() && 0 <= j < segs[i].len() ==> segs[i][j] != '/',
    ensures
        last_component(segs) matches Some(name) ==> is_component(name),
    decreases segs.len(),
{
    if segs.len() > 0 {
        if segs.last().len() == 0 || segs.last() == "."@ {
            lemma_last_component(segs.drop_last());
        }
    }
}

/// The final component of a path can name a directory entry.
pub proof fn lemma_file_name_is_component(path: Seq<char>)
    ensures
        file_name_of(path) matches Some(name) ==> is_component(name),
{
    lemma_split_on_pieces(path, '/');
    lemma_last_component(split_on(path, '/'));
}

/// The final component of a directory joined with a name is that name.
pub proof fn lemma_file_name_of_join(dir: Seq<char>, name: Seq<char>)
    requires
        is_component(name),
    ensures
        file_name_of(join_of(dir, name)) == Some(name),
{
    lemma_split_on_whole(name, '/');
    if dir.len() == 0 {
    } else if dir.last() == '/' {
        let head = dir.drop_last();
        assert(dir + name =~= head + seq!['/'] + name);
        lemma_split_on_concat(head, name, '/');
        assert((split_on(head, '/') + seq![name]).last() == name);
    } else {
        lemma_split_on_concat(dir, name, '/');
        assert((split_on(dir, '/') + seq![name]).last() == name);
    }
}

/// The directory of log files under the application's data directory.
pub open spec fn log_dir_of(app_data_dir: Seq<char>) -> Seq<char> {
    join_of(app_data_dir, "log"@)
}

/// The directory of log files.
pub fn log_dir(app_data_dir: &str) -> (r: String)
    ensures
        r@ == log_dir_of(app_data_dir@),
{
    join(app_data_dir, "log")
}

/// The directory that holds the game's own repository.
pub open spec fn cdda_clone_dir_of(app_data_dir: Seq<char>) -> Seq<char> {
    join_of(join_of(app_data_dir, ".cdda"@), "Cataclysm-DDA"@)
}

/// The directory that holds the game's own repository.
pub fn cdda_clone_dir(app_data_dir: &str) -> (r: String)
    ensures
        r@ == cdda_clone_dir_of(app_data_dir@),
{
    let hidden = join(app_data_dir, ".cdda");
    join(hidden.as_str(), "Cataclysm-DDA")
}

/// The directory of the profile whose folder is `name_with_id`.
pub open spec fn profile_dir_of(app_data_dir: Seq<char>, name_with_id: Seq<char>) -> Seq<char> {
    join_of(join_of(app_data_dir, "profiles"@), name_with_id)
}

/// The directory of the profile whose folder is `name_with_id`.
pub fn profile_dir(app_data_dir: &str, name_with_id: &str) -> (r: String)
    ensures
        r@ == profile_dir_of(app_data_dir@, name_with_id@),
{
    let profiles = join(app_data_dir, "profiles");
    join(profiles.as_str(), name_with_id)
}

/// The shared mod store.
pub open spec fn moddata_dir_of(app_data_dir: Seq<char>) -> Seq<char> {
    join_of(app_data_dir, "moddata"@)
}

/// The shared mod store.
pub fn moddata_dir(app_data_dir: &str) -> (r: String)
    ensures
        r@ == moddata_dir_of(app_data_dir@),
{
    join(app_data_dir, "moddata")
}

/// The settings document.
pub open spec fn settings_file_of(app_data_dir: Seq<char>) -> Seq<char> {
    join_of(app_data_dir, "setting.yaml"@)
}

/// The settings document.
pub fn settings_file(app_data_dir: &str) -> (r: String)
    ensures
        r@ == settings_file_of(app_data_dir@),
{
    join(app_data_dir, "setting.yaml")
}

/// What a `UserDataPaths` stands for: its root and the six directories under it.
pub struct UserDataPathsView {
    pub root: Seq<char>,
    pub mods: Seq<char>,
    pub config: Seq<char>,
    pub font: Seq<char>,
    pub save: Seq<char>,
    pub sound: Seq<char>,
    pub gfx: Seq<char>,
}

/// The layout under `root`: every directory is `root` joined with a fixed name.
pub open spec fn layout_of(root: Seq<char>) -> UserDataPathsView {
    UserDataPathsView {
        root,
        mods: join_of(root, "mods"@),
        config: join_of(root, "config"@),
        font: join_of(root, "font"@),
        save: join_of(root, "save"@),
        sound: join_of(root, "sound"@),
        gfx: join_of(root, "gfx"@),
    }
}

/// The user-data directories of one profile.
#[derive(Debug)]
pub struct UserDataPaths {
    pub root: String,
    pub mods: String,
    pub config: String,
    pub font: String,
    pub save: String,
    pub sound: String,
    pub gfx: String,
}

impl View for UserDataPaths {
    type V = UserDataPathsView;

    open spec fn view(&self) -> UserDataPathsView {
        UserDataPathsView {
            root: self.root@,
            mods: self.mods@,
            config: self.config@,
            font: self.font@,
            save: self.save@,
            sound: self.sound@,
            gfx: self.gfx@,
        }
    }
}

impl DeepView for UserDataPaths {
    type V = UserDataPathsView;

    open spec fn deep_view(&self) -> UserDataPathsView {
        self@
    }
}

impl Clone for UserDataPaths {
    fn clone(&self) -> (r: Self)
        ensures
            r@ == self@,
    {
        UserDataPaths {
            root: self.root.clone(),
            mods: self.mods.clone(),
            config: self.config.clone(),
            font: self.font.clone(),
            save: self.save.clone(),
            sound: self.sound.clone(),
            gfx: self.gfx.clone(),
        }
    }
}

impl UserDataPaths {
    /// Whether every directory is the one that the layout gives for the root.
    pub open spec fn wf(&self) -> bool {
        self@ == layout_of(self.root@)
    }

    /// The layout under `root`.
    pub fn new(root: String) -> (r: Self)
        ensures
            r@ == layout_of(root@),
            r.wf(),
    {
        let mods = join(root.as_str(), "mods");
        let config = join(root.as_str(), "config");
        let font = join(root.as_str(), "font");
        let save = join(root.as_str(), "save");
        let sound = join(root.as_str(), "sound");
        let gfx = join(root.as_str(), "gfx");
        UserDataPaths { root, mods, config, font, save, sound, gfx }
    }

    /// The seven directories, the root first: what has to exist on disk.
    pub fn directories(&self) -> (r: Vec<String>)
        ensures
            r.deep_view() == seq![
                self.root@,
                self.mods@,
                self.save@,
                self.config@,
                self.font@,
                self.sound@,
                self.gfx@,
            ],
    {
        let mut r: Vec<String> = Vec::new();
        r.push(self.root.clone());
        r.push(self.mods.clone());
        r.push(self.save.clone());
        r.push(self.config.clone());
        r.push(self.font.clone());
        r.push(self.sound.clone());
        r.push(self.gfx.clone());
        proof {
            assert(r.deep_view() =~= seq![
                self.root@,
                self.mods@,
                self.save@,
                self.config@,
                self.font@,
                self.sound@,
                self.gfx@,
            ]);
        }
        r
    }
}

} // verus!
