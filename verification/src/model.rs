//! Mods and their descriptors, as the manifest of a mod directory gives them.

use vstd::prelude::*;
use crate::json::{parse, parsed, Json, JsonValue};
use crate::text::{lex_le, str_eq, str_le};

verus! {

/// Copies a list of strings.
pub fn clone_strings(list: &Vec<String>) -> (r: Vec<String>)
    ensures
        r.deep_view() == list.deep_view(),
{
    let mut r: Vec<String> = Vec::new();
    let mut i: usize = 0;
    while i < list.len()
        invariant
            i <= list.len(),
            r.len() == i,
            forall|j: int| 0 <= j < i ==> r@[j]@ == list@[j]@,
        decreases list.len() - i,
    {
        r.push(list[i].clone());
        i += 1;
    }
    proof {
        assert(r.deep_view() =~= list.deep_view());
    }
    r
}

/// Copies a string that may be absent.
pub fn clone_text(text: &Option<String>) -> (r: Option<String>)
    ensures
        r.deep_view() == text.deep_view(),
{
    match text {
        Some(s) => Some(s.clone()),
        None => None,
    }
}

/// Copies a list that may be absent.
pub fn clone_list(list: &Option<Vec<String>>) -> (r: Option<Vec<String>>)
    ensures
        r.deep_view() == list.deep_view(),
{
    match list {
        Some(l) => Some(clone_strings(l)),
        None => None,
    }
}

/// A manifest field that holds one string or a list of strings.
#[derive(Debug)]
pub enum StringOrVec {
    String(String),
    Vec(Vec<String>),
}

/// Whether every value in `items` is a string.
pub open spec fn all_text(items: Seq<JsonValue>) -> bool {
    forall|i: int| 0 <= i < items.len() ==> items[i] is Text
}

/// The strings in `items`, where all of them are strings.
pub open spec fn texts_of(items: Seq<JsonValue>) -> Seq<Seq<char>> {
    Seq::new(items.len(), |i: int| items[i]->Text_0)
}

/// The list that a string-or-list value stands for, or `None` where the
/// value is neither a string nor a list of strings.
pub open spec fn list_of(value: JsonValue) -> Option<Seq<Seq<char>>> {
    match value {
        JsonValue::Text(s) => Some(seq![s]),
        JsonValue::Array(items) => if all_text(items) {
            Some(texts_of(items))
        } else {
            None
        },
        _ => None,
    }
}

impl StringOrVec {
    /// The list that the field stands for: a single string is a list of one.
    pub open spec fn list(self) -> Seq<Seq<char>> {
        match self {
            StringOrVec::String(s) => seq![s@],
            StringOrVec::Vec(l) => l.deep_view(),
        }
    }

    /// Decodes a string or a list of strings.
    pub fn from_json(value: &Json) -> (r: Option<StringOrVec>)
        ensures
            match r {
                Some(field) => list_of(value@) == Some(field.list()),
                None => list_of(value@) is None,
            },
    {
        match value {
            Json::Text(s) => Some(StringOrVec::String(s.clone())),
            Json::Array(items) => {
                let ghost all = value@->Array_0;
                let mut list: Vec<String> = Vec::new();
                let mut i: usize = 0;
                while i < items.len()
                    invariant
                        i <= items.len(),
                        value@ == JsonValue::Array(all),
                        *value == Json::Array(*items),
                        list.len() == i,
                        forall|j: int| 0 <= j < i ==> all[j] == JsonValue::Text(list@[j]@),
                    decreases items.len() - i,
                {
                    proof {
                        assert(all[i as int] == crate::json::value_of(items@[i as int]));
                    }
                    match &items[i] {
                        Json::Text(s) => {
                            list.push(s.clone());
                        },
                        _ => {
                            proof {
                                assert(!(all[i as int] is Text));
                            }
                            return None;
                        },
                    }
                    i += 1;
                }
                proof {
                    assert(all.len() == items@.len());
                    assert(all_text(all));
                    assert(list.deep_view() =~= texts_of(all));
                }
                Some(StringOrVec::Vec(list))
            },
            _ => None,
        }
    }

    /// The list that the field stands for.
    pub fn into_list(self) -> (r: Vec<String>)
        ensures
            r.deep_view() == self.list(),
    {
        match self {
            StringOrVec::String(s) => {
                let mut r: Vec<String> = Vec::new();
                r.push(s);
                proof {
                    assert(r.deep_view() =~= seq![s@]);
                }
                r
            },
            StringOrVec::Vec(l) => l,
        }
    }
}

/// What a `ModInfo` stands for.
pub struct ModInfoView {
    pub ident: Option<Seq<char>>,
    pub id: Option<Seq<char>>,
    pub name: Seq<char>,
    pub authors: Option<Seq<Seq<char>>>,
    pub description: Option<Seq<char>>,
    pub category: Option<Seq<char>>,
    pub dependencies: Option<Seq<Seq<char>>>,
    pub maintainers: Option<Seq<Seq<char>>>,
    pub version: Option<Seq<char>>,
    pub obsolete: Option<bool>,
}

/// The descriptor of a mod, as its manifest gives it. Fields that take a
/// string or a list in the manifest are lists here.
#[derive(Debug)]
pub struct ModInfo {
    pub ident: Option<String>,
    pub id: Option<String>,
    pub name: String,
    pub authors: Option<Vec<String>>,
    pub description: Option<String>,
    pub category: Option<String>,
    pub dependencies: Option<Vec<String>>,
    pub maintainers: Option<Vec<String>>,
    pub version: Option<String>,
    pub obsolete: Option<bool>,
}

impl View for ModInfo {
    type V = ModInfoView;

    open spec fn view(&self) -> ModInfoView {
        ModInfoView {
            ident: self.ident.deep_view(),
            id: self.id.deep_view(),
            name: self.name@,
            authors: self.authors.deep_view(),
            description: self.description.deep_view(),
            category: self.category.deep_view(),
            dependencies: self.dependencies.deep_view(),
            maintainers: self.maintainers.deep_view(),
            version: self.version.deep_view(),
            obsolete: self.obsolete,
        }
    }
}

impl DeepView for ModInfo {
    type V = ModInfoView;

    open spec fn deep_view(&self) -> ModInfoView {
        self@
    }
}

impl Clone for ModInfo {
    fn clone(&self) -> (r: Self)
        ensures
            r@ == self@,
    {
        ModInfo {
            ident: clone_text(&self.ident),
            id: clone_text(&self.id),
            name: self.name.clone(),
            authors: clone_list(&self.authors),
            description: clone_text(&self.description),
            category: clone_text(&self.category),
            dependencies: clone_list(&self.dependencies),
            maintainers: clone_list(&self.maintainers),
            version: clone_text(&self.version),
            obsolete: self.obsolete,
        }
    }
}

/// Why a manifest gives no descriptor.
#[derive(Clone, Copy, Debug, PartialEq, Eq, Structural)]
pub enum ParseError {
    /// The text is not JSON.
    Syntax,
    /// The document is not an array.
    NotAnArray,
    /// The array does not hold exactly one entry.
    EntryCount,
    /// The entry is not an object with a `name` and well-typed fields.
    BadEntry,
}

/// An optional string field: absent and `null` are no value, a string is a
/// value, anything else is ill-typed (the outer `None`).
pub open spec fn text_field(member: Option<JsonValue>) -> Option<Option<Seq<char>>> {
    match member {
        None => Some(None),
        Some(JsonValue::Null) => Some(None),
        Some(JsonValue::Text(s)) => Some(Some(s)),
        Some(_) => None,
    }
}

/// An optional flag, read as `text_field` reads a string.
pub open spec fn flag_field(member: Option<JsonValue>) -> Option<Option<bool>> {
    match member {
        None => Some(None),
        Some(JsonValue::Null) => Some(None),
        Some(JsonValue::Bool(b)) => Some(Some(b)),
        Some(_) => None,
    }
}

/// An optional string-or-list field, read as `text_field` reads a string.
pub open spec fn list_field(member: Option<JsonValue>) -> Option<Option<Seq<Seq<char>>>> {
    match member {
        None => Some(None),
        Some(JsonValue::Null) => Some(None),
        Some(value) => match list_of(value) {
            Some(list) => Some(Some(list)),
            None => None,
        },
    }
}

/// The descriptor that a manifest entry gives: `None` unless the entry is an
/// object whose `name` is a string and whose other known fields are absent,
/// `null` or of their type. Unknown fields are ignored.
pub open spec fn descriptor_of(entry: JsonValue) -> Option<ModInfoView> {
    let ident = text_field(entry.member("ident"@));
    let id = text_field(entry.member("id"@));
    let name = entry.member("name"@);
    let authors = list_field(entry.member("authors"@));
    let description = text_field(entry.member("description"@));
    let category = text_field(entry.member("category"@));
    let dependencies = list_field(entry.member("dependencies"@));
    let maintainers = list_field(entry.member("maintainers"@));
    let version = text_field(entry.member("version"@));
    let obsolete = flag_field(entry.member("obsolete"@));
    if entry is Object && ident is Some && id is Some && name is Some && name->0 is Text
        && authors is Some && description is Some && category is Some && dependencies is Some
        && maintainers is Some && version is Some && obsolete is Some {
        Some(
            ModInfoView {
                ident: ident->0,
                id: id->0,
                name: name->0->Text_0,
                authors: authors->0,
                description: description->0,
                category: category->0,
                dependencies: dependencies->0,
                maintainers: maintainers->0,
                version: version->0,
                obsolete: obsolete->0,
            },
        )
    } else {
        None
    }
}

/// The descriptor that a manifest document gives: the document has to be an
/// array of exactly one well-formed entry.
pub open spec fn manifest_of(doc: JsonValue) -> Result<ModInfoView, ParseError> {
    match doc {
        JsonValue::Array(items) => if items.len() != 1 {
            Err(ParseError::EntryCount)
        } else {
            match descriptor_of(items[0]) {
                Some(info) => Ok(info),
                None => Err(ParseError::BadEntry),
            }
        },
        _ => Err(ParseError::NotAnArray),
    }
}

/// The descriptor that a manifest text gives, `doc` being what the text
/// reads as.
pub open spec fn manifest_text_of(doc: Option<JsonValue>) -> Result<ModInfoView, ParseError> {
    match doc {
        Some(d) => manifest_of(d),
        None => Err(ParseError::Syntax),
    }
}

/// Whether `r` is the result `expected`, descriptor by its view.
pub open spec fn is_result(r: Result<ModInfo, ParseError>, expected: Result<ModInfoView, ParseError>) -> bool {
    match r {
        Ok(info) => expected == Ok::<ModInfoView, ParseError>(info@),
        Err(e) => expected == Err::<ModInfoView, ParseError>(e),
    }
}

fn read_text(entry: &Json, key: &str) -> (r: Option<Option<String>>)
    ensures
        r.deep_view() == text_field(entry@.member(key@)),
{
    match entry.get(key) {
        None => Some(None),
        Some(Json::Null) => Some(None),
        Some(Json::Text(s)) => Some(Some(s.clone())),
        Some(_) => None,
    }
}

fn read_flag(entry: &Json, key: &str) -> (r: Option<Option<bool>>)
    ensures
        r == flag_field(entry@.member(key@)),
{
    match entry.get(key) {
        None => Some(None),
        Some(Json::Null) => Some(None),
        Some(Json::Bool(b)) => Some(Some(*b)),
        Some(_) => None,
    }
}

fn read_list(entry: &Json, key: &str) -> (r: Option<Option<Vec<String>>>)
    ensures
        r.deep_view() == list_field(entry@.member(key@)),
{
    match entry.get(key) {
        None => Some(None),
        Some(Json::Null) => Some(None),
        Some(value) => match StringOrVec::from_json(value) {
            Some(field) => Some(Some(field.into_list())),
            None => None,
        },
    }
}

impl ModInfo {
    /// The identifier of the mod: `ident` where the manifest has it, else `id`.
    pub open spec fn id_of(info: ModInfoView) -> Option<Seq<char>> {
        match info.ident {
            Some(ident) => Some(ident),
            None => info.id,
        }
    }

    /// The identifier of the mod, if its manifest gives one.
    pub fn get_id(&self) -> (r: Option<String>)
        ensures
            r.deep_view() == Self::id_of(self@),
    {
        match &self.ident {
            Some(ident) => Some(ident.clone()),
            None => clone_text(&self.id),
        }
    }

    /// Decodes one entry of a manifest.
    pub fn from_entry(entry: &Json) -> (r: Option<ModInfo>)
        ensures
            r.deep_view() == descriptor_of(entry@),
    {
        let is_object = match entry {
            Json::Object(_) => true,
            _ => false,
        };
        if !is_object {
            return None;
        }
        let name = match entry.get("name") {
            Some(Json::Text(s)) => s.clone(),
            _ => {
                return None;
            },
        };
        let ident = match read_text(entry, "ident") {
            Some(v) => v,
            None => {
                return None;
            },
        };
        let id = match read_text(entry, "id") {
            Some(v) => v,
            None => {
                return None;
            },
        };
        let authors = match read_list(entry, "authors") {
            Some(v) => v,
            None => {
                return None;
            },
        };
        let description = match read_text(entry, "description") {
            Some(v) => v,
            None => {
                return None;
            },
        };
        let category = match read_text(entry, "category") {
            Some(v) => v,
            None => {
                return None;
            },
        };
        let dependencies = match read_list(entry, "dependencies") {
            Some(v) => v,
            None => {
                return None;
            },
        };
        let maintainers = match read_list(entry, "maintainers") {
            Some(v) => v,
            None => {
                return None;
            },
        };
        let version = match read_text(entry, "version") {
            Some(v) => v,
            None => {
                return None;
            },
        };
        let obsolete = match read_flag(entry, "obsolete") {
            Some(v) => v,
            None => {
                return None;
            },
        };
        Some(
            ModInfo {
                ident,
                id,
                name,
                authors,
                description,
                category,
                dependencies,
                maintainers,
                version,
                obsolete,
            },
        )
    }

    /// Decodes a manifest document: an array of exactly one entry.
    pub fn from_json(doc: &Json) -> (r: Result<ModInfo, ParseError>)
        ensures
            is_result(r, manifest_of(doc@)),
    {
        match doc {
            Json::Array(items) => {
                if items.len() != 1 {
                    return Err(ParseError::EntryCount);
                }
                proof {
                    assert((doc@->Array_0)[0] == crate::json::value_of(items@[0]));
                }
                match ModInfo::from_entry(&items[0]) {
                    Some(info) => Ok(info),
                    None => Err(ParseError::BadEntry),
                }
            },
            _ => Err(ParseError::NotAnArray),
        }
    }

    /// Decodes the text of a manifest.
    pub fn from_manifest(text: &str) -> (r: Result<ModInfo, ParseError>)
        ensures
            is_result(r, manifest_text_of(parsed(text@))),
    {
        match parse(text) {
            Some(doc) => ModInfo::from_json(&doc),
            None => Err(ParseError::Syntax),
        }
    }
}

/// What a `LocalVersion` stands for.
pub struct LocalVersionView {
    pub branch_name: Seq<char>,
    pub last_commit_date: Seq<char>,
}

/// The branch that a mod's working copy is on, and the date of its last commit.
#[derive(Debug)]
pub struct LocalVersion {
    pub branch_name: String,
    pub last_commit_date: String,
}

impl View for LocalVersion {
    type V = LocalVersionView;

    open spec fn view(&self) -> LocalVersionView {
        LocalVersionView {
            branch_name: self.branch_name@,
            last_commit_date: self.last_commit_date@,
        }
    }
}

impl DeepView for LocalVersion {
    type V = LocalVersionView;

    open spec fn deep_view(&self) -> LocalVersionView {
        self@
    }
}

impl Clone for LocalVersion {
    fn clone(&self) -> (r: Self)
        ensures
            r@ == self@,
    {
        LocalVersion {
            branch_name: self.branch_name.clone(),
            last_commit_date: self.last_commit_date.clone(),
        }
    }
}

/// What a `Mod` stands for.
pub struct ModView {
    pub info: ModInfoView,
    pub local_version: Option<LocalVersionView>,
    pub is_installed: bool,
    pub local_path: Seq<char>,
}

/// A mod of the store, as one scan saw it. `is_installed` is what the link
/// farm said at that scan.
#[derive(Debug)]
pub struct Mod {
    pub info: ModInfo,
    pub local_version: Option<LocalVersion>,
    pub is_installed: bool,
    pub local_path: String,
}

impl View for Mod {
    type V = ModView;

    open spec fn view(&self) -> ModView {
        ModView {
            info: self.info@,
            local_version: self.local_version.deep_view(),
            is_installed: self.is_installed,
            local_path: self.local_path@,
        }
    }
}

impl DeepView for Mod {
    type V = ModView;

    open spec fn deep_view(&self) -> ModView {
        self@
    }
}

impl Clone for Mod {
    fn clone(&self) -> (r: Self)
        ensures
            r@ == self@,
    {
        let local_version = match &self.local_version {
            Some(v) => Some(v.clone()),
            None => None,
        };
        Mod {
            info: self.info.clone(),
            local_version,
            is_installed: self.is_installed,
            local_path: self.local_path.clone(),
        }
    }
}

impl PartialEq for Mod {
    /// Two mods are equal where they have the same display name.
    fn eq(&self, other: &Self) -> (r: bool) {
        str_eq(self.info.name.as_str(), other.info.name.as_str())
    }
}

impl vstd::std_specs::cmp::PartialEqSpecImpl for Mod {
    open spec fn obeys_eq_spec() -> bool {
        true
    }

    open spec fn eq_spec(&self, other: &Self) -> bool {
        self.info.name@ == other.info.name@
    }
}

impl Eq for Mod {

}

/// The order in which mods are listed: by display name, and among mods of
/// one name by their path in the store.
pub open spec fn mod_le(a: ModView, b: ModView) -> bool {
    if a.info.name == b.info.name {
        lex_le(a.local_path, b.local_path)
    } else {
        lex_le(a.info.name, b.info.name)
    }
}

impl Mod {
    /// Whether `self` is listed at or before `other`.
    pub fn le(&self, other: &Mod) -> (r: bool)
        ensures
            r == mod_le(self@, other@),
    {
        if str_eq(self.info.name.as_str(), other.info.name.as_str()) {
            str_le(self.local_path.as_str(), other.local_path.as_str())
        } else {
            str_le(self.info.name.as_str(), other.info.name.as_str())
        }
    }

    /// Whether two mods have the same display name.
    pub fn same_name(&self, other: &Mod) -> (r: bool)
        ensures
            r == (self@.info.name == other@.info.name),
    {
        str_eq(self.info.name.as_str(), other.info.name.as_str())
    }
}

/// Copies a list of mods.
pub fn clone_mods(mods: &Vec<Mod>) -> (r: Vec<Mod>)
    ensures
        r.deep_view() == mods.deep_view(),
{
    let mut r: Vec<Mod> = Vec::new();
    let mut i: usize = 0;
    while i < mods.len()
        invariant
            i <= mods.len(),
            r.len() == i,
            forall|j: int| 0 <= j < i ==> r@[j]@ == mods@[j]@,
        decreases mods.len() - i,
    {
        r.push(mods[i].clone());
        i += 1;
    }
    proof {
        assert(r.deep_view() =~= mods.deep_view());
    }
    r
}

} // verus!
